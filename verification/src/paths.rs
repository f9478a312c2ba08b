//! Paths of this machine as text, and how tabs show them.
use vstd::prelude::*;
use vstd::slice::slice_subrange;
use vstd::utf8::{decode_utf8, valid_utf8};

use crate::crypto::{base64_bytes, base64_decode};
use crate::text::{
    chars_of, copy_range, join, join_chars, push_all, text_of, trim, trim_text, views,
};

verus! {

/// How a path is parted into components.
#[derive(Clone, Copy, PartialEq, Eq, Structural, Debug)]
pub enum PathStyle {
    /// Slashes part it.
    Unix,
    /// Slashes and backslashes part it.
    Windows,
    /// Backslashes alone part it, and a single dot is a component like any other:
    /// a path of Windows that is taken as it is written.
    Verbatim,
}

/// Whether the character parts a path.
pub open spec fn parts_path(c: char, style: PathStyle) -> bool {
    match style {
        PathStyle::Unix => c == '/',
        PathStyle::Windows => c == '/' || c == '\\',
        PathStyle::Verbatim => c == '\\',
    }
}

fn is_separator(c: char, style: PathStyle) -> (r: bool)
    ensures
        r == parts_path(c, style),
{
    match style {
        PathStyle::Unix => c == '/',
        PathStyle::Windows => c == '/' || c == '\\',
        PathStyle::Verbatim => c == '\\',
    }
}

/// The length of the first component of a path.
pub open spec fn piece_len(s: Seq<char>, style: PathStyle) -> nat
    decreases s.len(),
{
    if s.len() == 0 || parts_path(s[0], style) {
        0
    } else {
        1 + piece_len(s.skip(1), style)
    }
}

pub proof fn lemma_piece_len(s: Seq<char>, style: PathStyle)
    ensures
        piece_len(s, style) <= s.len(),
        s.len() > 0 && !parts_path(s[0], style) ==> piece_len(s, style) > 0,
    decreases s.len(),
{
    if s.len() > 0 {
        lemma_piece_len(s.skip(1), style);
    }
}

fn first_piece(s: &[char], style: PathStyle) -> (r: usize)
    ensures
        r == piece_len(s@, style),
        r <= s@.len(),
{
    let mut i: usize = 0;
    assert(s@.skip(0) =~= s@);
    while i < s.len() && !is_separator(s[i], style)
        invariant
            i <= s.len(),
            piece_len(s@, style) == i + piece_len(s@.skip(i as int), style),
        decreases s.len() - i,
    {
        assert(s@.skip(i as int)[0] == s@[i as int]);
        assert(s@.skip(i as int).skip(1) =~= s@.skip(i + 1));
        i += 1;
    }
    proof {
        if i < s@.len() {
            assert(s@.skip(i as int)[0] == s@[i as int]);
        }
    }
    i
}

/// Whether a path starts with a separator or with a component that is one dot.
pub open spec fn starts_idle(s: Seq<char>, style: PathStyle) -> bool {
    s.len() > 0 && (parts_path(s[0], style) || (style != PathStyle::Verbatim && s[0] == '.' && (
    s.len() == 1 || parts_path(s[1], style))))
}

/// A path without the separators and single dots in front.
pub open spec fn skip_idle(s: Seq<char>, style: PathStyle) -> Seq<char>
    decreases s.len(),
{
    if starts_idle(s, style) {
        skip_idle(s.skip(1), style)
    } else {
        s
    }
}

/// Whether a path ends with a separator or with a component that is one dot.
pub open spec fn ends_idle(s: Seq<char>, style: PathStyle) -> bool {
    s.len() > 0 && (parts_path(s.last(), style) || (style != PathStyle::Verbatim && s.last() == '.'
        && (s.len() == 1 || parts_path(s[s.len() - 2], style))))
}

/// A path without the separators and single dots at its end.
pub open spec fn trim_idle(s: Seq<char>, style: PathStyle) -> Seq<char>
    decreases s.len(),
{
    if ends_idle(s, style) {
        trim_idle(s.drop_last(), style)
    } else {
        s
    }
}

pub proof fn lemma_skip_idle(s: Seq<char>, style: PathStyle)
    ensures
        skip_idle(s, style).len() <= s.len(),
    decreases s.len(),
{
    if starts_idle(s, style) {
        lemma_skip_idle(s.skip(1), style);
    }
}

fn skip_idle_chars<'a>(s: &'a [char], style: PathStyle) -> (r: &'a [char])
    ensures
        r@ == skip_idle(s@, style),
        r@.len() <= s@.len(),
{
    let mut i: usize = 0;
    assert(s@.skip(0) =~= s@);
    while i < s.len()
        invariant_except_break
            i <= s.len(),
            skip_idle(s@, style) == skip_idle(s@.skip(i as int), style),
        ensures
            i <= s.len(),
            skip_idle(s@, style) == s@.skip(i as int),
        decreases s.len() - i,
    {
        let ghost rest = s@.skip(i as int);
        assert(rest[0] == s@[i as int]);
        assert(rest.skip(1) =~= s@.skip(i + 1));
        assert(rest.len() > 1 ==> rest[1] == s@[i + 1]);
        let dot: bool = style != PathStyle::Verbatim && s[i] == '.' && (i + 1 == s.len()
            || is_separator(s[i + 1], style));
        if !is_separator(s[i], style) && !dot {
            break;
        }
        i += 1;
    }
    slice_subrange(s, i, s.len())
}

fn trim_idle_chars<'a>(s: &'a [char], style: PathStyle) -> (r: &'a [char])
    ensures
        r@ == trim_idle(s@, style),
{
    let mut n: usize = s.len();
    assert(s@.take(n as int) =~= s@);
    while n > 0
        invariant_except_break
            n <= s.len(),
            trim_idle(s@, style) == trim_idle(s@.take(n as int), style),
        ensures
            n <= s.len(),
            trim_idle(s@, style) == s@.take(n as int),
        decreases n,
    {
        let ghost rest = s@.take(n as int);
        assert(rest.last() == s@[n - 1]);
        assert(rest.drop_last() =~= s@.take(n - 1));
        assert(n > 1 ==> rest[n - 2] == s@[n - 2]);
        let dot: bool = style != PathStyle::Verbatim && s[n - 1] == '.' && (n == 1
            || is_separator(s[n - 2], style));
        if !is_separator(s[n - 1], style) && !dot {
            break;
        }
        n -= 1;
    }
    slice_subrange(s, 0, n)
}

/// A letter of ASCII in its lower case; any other character as it is.
pub open spec fn lower_ascii(c: char) -> char {
    if 'A' <= c <= 'Z' {
        (c as u32 + 32) as char
    } else {
        c
    }
}

/// Whether two components are the same, in any case of their ASCII letters or as they
/// are.
pub open spec fn same_piece(a: Seq<char>, b: Seq<char>, any_case: bool) -> bool {
    if any_case {
        a.map_values(|c: char| lower_ascii(c)) == b.map_values(|c: char| lower_ascii(c))
    } else {
        a == b
    }
}

pub fn lower_of(c: char) -> (r: char)
    ensures
        r == lower_ascii(c),
{
    if 'A' <= c && c <= 'Z' {
        let n: u8 = c as u8 + 32;
        n as char
    } else {
        c
    }
}

pub fn same_pieces(a: &[char], b: &[char], any_case: bool) -> (r: bool)
    ensures
        r == same_piece(a@, b@, any_case),
{
    let ghost lower = |c: char| lower_ascii(c);
    if a.len() != b.len() {
        proof {
            assert(a@.map_values(lower).len() != b@.map_values(lower).len());
        }
        return false;
    }
    let mut i: usize = 0;
    while i < a.len()
        invariant
            i <= a.len(),
            a.len() == b.len(),
            any_case ==> forall|k: int|
                0 <= k < i ==> lower_ascii(#[trigger] a@[k]) == lower_ascii(b@[k]),
            !any_case ==> forall|k: int| 0 <= k < i ==> #[trigger] a@[k] == b@[k],
        decreases a.len() - i,
    {
        let same: bool = if any_case {
            lower_of(a[i]) == lower_of(b[i])
        } else {
            a[i] == b[i]
        };
        if !same {
            proof {
                let x = a@.map_values(|c: char| lower_ascii(c));
                let y = b@.map_values(|c: char| lower_ascii(c));
                assert(any_case ==> x[i as int] != y[i as int]);
            }
            return false;
        }
        i += 1;
    }
    proof {
        if any_case {
            assert(a@.map_values(|c: char| lower_ascii(c)) =~= b@.map_values(
                |c: char| lower_ascii(c),
            ));
        } else {
            assert(a@ =~= b@);
        }
    }
    true
}

/// What is left of a path behind the components of another one.
pub open spec fn behind(
    path: Seq<char>,
    home: Seq<char>,
    style: PathStyle,
    any_case: bool,
) -> Option<Seq<char>>
    decreases home.len(),
{
    let n = piece_len(path, style);
    let m = piece_len(home, style);
    if home.len() == 0 {
        Some(path)
    } else if m == 0 || !same_piece(path.take(n as int), home.take(m as int), any_case) {
        None
    } else {
        proof {
            lemma_piece_len(home, style);
            lemma_skip_idle(home.skip(m as int), style);
        }
        behind(
            skip_idle(path.skip(n as int), style),
            skip_idle(home.skip(m as int), style),
            style,
            any_case,
        )
    }
}

fn behind_chars<'a>(
    path: &'a [char],
    home: &[char],
    style: PathStyle,
    any_case: bool,
) -> (r: Option<&'a [char]>)
    ensures
        match r {
            Some(rest) => behind(path@, home@, style, any_case) == Some(rest@),
            None => behind(path@, home@, style, any_case) is None,
        },
    decreases home.len(),
{
    if home.len() == 0 {
        return Some(path);
    }
    let n: usize = first_piece(path, style);
    let m: usize = first_piece(home, style);
    if m == 0 || !same_pieces(
        slice_subrange(path, 0, n),
        slice_subrange(home, 0, m),
        any_case,
    ) {
        return None;
    }
    behind_chars(
        skip_idle_chars(slice_subrange(path, n, path.len()), style),
        skip_idle_chars(slice_subrange(home, m, home.len()), style),
        style,
        any_case,
    )
}

/// What a path of Windows starts with.
#[derive(Clone, Copy, PartialEq, Eq, Structural, Debug)]
pub enum PrefixKind {
    /// A drive: `C:`.
    Drive,
    /// A share on a server: `\\server\share`.
    Share,
    /// A device: `\\.\name`.
    Device,
    /// A drive in a path that is taken as it is written: `\\?\C:`.
    VerbatimDrive,
    /// A share in such a path: `\\?\UNC\server\share`.
    VerbatimShare,
    /// Anything else in such a path: `\\?\name`.
    Verbatim,
}

impl PrefixKind {
    /// Whether the path is taken as it is written.
    pub open spec fn verbatim(self) -> bool {
        self is VerbatimDrive || self is VerbatimShare || self is Verbatim
    }
}

/// The prefix of a path: its kind, the names in it, and its length. A drive is named
/// by its letter in upper case.
#[verifier::ext_equal]
pub struct PrefixView {
    pub kind: PrefixKind,
    pub first: Seq<char>,
    pub second: Seq<char>,
    pub len: nat,
}

pub open spec fn is_drive_letter(c: char) -> bool {
    'a' <= c <= 'z' || 'A' <= c <= 'Z'
}

/// A letter of ASCII in its upper case; any other character as it is.
pub open spec fn upper_ascii(c: char) -> char {
    if 'a' <= c <= 'z' {
        (c as u32 - 32) as char
    } else {
        c
    }
}

fn upper_of(c: char) -> (r: char)
    ensures
        r == upper_ascii(c),
{
    if 'a' <= c && c <= 'z' {
        let n: u8 = c as u8 - 32;
        n as char
    } else {
        c
    }
}

/// Whether a path starts with a drive.
pub open spec fn names_drive(s: Seq<char>) -> bool {
    s.len() >= 2 && is_drive_letter(s[0]) && s[1] == ':'
}

/// The name behind the first component and the separator that ends it; empty where
/// nothing follows.
pub open spec fn second_name(s: Seq<char>, style: PathStyle) -> Seq<char> {
    let n = piece_len(s, style);
    if n < s.len() {
        let rest = s.skip(n as int + 1);
        rest.take(piece_len(rest, style) as int)
    } else {
        Seq::empty()
    }
}

/// The prefix that a server and a share make, behind the first `start` characters.
pub open spec fn share_prefix(
    kind: PrefixKind,
    s: Seq<char>,
    start: nat,
    style: PathStyle,
) -> PrefixView {
    let rest = s.skip(start as int);
    let first = rest.take(piece_len(rest, style) as int);
    let second = second_name(rest, style);
    PrefixView {
        kind,
        first,
        second,
        len: start + first.len() + (if second.len() > 0 {
            1 + second.len()
        } else {
            0
        }),
    }
}

/// The prefix that one name makes, behind the first four characters.
pub open spec fn named_prefix(kind: PrefixKind, s: Seq<char>, style: PathStyle) -> PrefixView {
    let rest = s.skip(4);
    let n = piece_len(rest, style);
    PrefixView { kind, first: rest.take(n as int), second: Seq::empty(), len: 4 + n }
}

/// Whether a path starts as one that is taken as it is written.
pub open spec fn starts_verbatim(s: Seq<char>) -> bool {
    s.len() >= 4 && s[0] == '\\' && s[1] == '\\' && s[2] == '?' && s[3] == '\\'
}

/// The prefix of a path that is taken as it is written.
pub open spec fn verbatim_prefix(s: Seq<char>) -> PrefixView {
    if s.len() >= 8 && s[4] == 'U' && s[5] == 'N' && s[6] == 'C' && parts_path(
        s[7],
        PathStyle::Windows,
    ) {
        share_prefix(PrefixKind::VerbatimShare, s, 8, PathStyle::Verbatim)
    } else if names_drive(s.skip(4)) && (s.len() == 6 || parts_path(s[6], PathStyle::Windows)) {
        PrefixView {
            kind: PrefixKind::VerbatimDrive,
            first: seq![upper_ascii(s[4])],
            second: Seq::empty(),
            len: 6,
        }
    } else {
        named_prefix(PrefixKind::Verbatim, s, PathStyle::Verbatim)
    }
}

/// The prefix of a path; only those of Windows have one.
pub open spec fn prefix_of(s: Seq<char>, windows: bool) -> Option<PrefixView> {
    if !windows {
        None
    } else if s.len() >= 2 && parts_path(s[0], PathStyle::Windows) && parts_path(
        s[1],
        PathStyle::Windows,
    ) {
        if starts_verbatim(s) {
            Some(verbatim_prefix(s))
        } else if s.len() >= 4 && s[2] == '.' && parts_path(s[3], PathStyle::Windows) {
            Some(named_prefix(PrefixKind::Device, s, PathStyle::Windows))
        } else {
            let share = share_prefix(PrefixKind::Share, s, 2, PathStyle::Windows);
            if share.first.len() > 0 && share.second.len() > 0 {
                Some(share)
            } else {
                None
            }
        }
    } else if names_drive(s) {
        Some(
            PrefixView {
                kind: PrefixKind::Drive,
                first: seq![upper_ascii(s[0])],
                second: Seq::empty(),
                len: 2,
            },
        )
    } else {
        None
    }
}

/// The prefix of a path.
struct Prefix {
    kind: PrefixKind,
    first: Vec<char>,
    second: Vec<char>,
    len: usize,
}

impl View for Prefix {
    type V = PrefixView;

    closed spec fn view(&self) -> PrefixView {
        PrefixView {
            kind: self.kind,
            first: self.first@,
            second: self.second@,
            len: self.len as nat,
        }
    }
}

fn find_drive(s: &[char]) -> (r: bool)
    ensures
        r == names_drive(s@),
{
    s.len() >= 2 && (('a' <= s[0] && s[0] <= 'z') || ('A' <= s[0] && s[0] <= 'Z')) && s[1] == ':'
}

fn drive_prefix(kind: PrefixKind, letter: char, len: usize) -> (r: Prefix)
    ensures
        r@ == (PrefixView {
            kind,
            first: seq![upper_ascii(letter)],
            second: Seq::empty(),
            len: len as nat,
        }),
{
    let mut first: Vec<char> = Vec::new();
    first.push(upper_of(letter));
    let r = Prefix { kind, first, second: Vec::new(), len };
    assert(r@.first =~= seq![upper_ascii(letter)]);
    assert(r@.second =~= Seq::empty());
    r
}

fn find_share(kind: PrefixKind, s: &[char], start: usize, style: PathStyle) -> (r: Prefix)
    requires
        start <= s.len(),
    ensures
        r@ == share_prefix(kind, s@, start as nat, style),
        r@.len <= s@.len(),
{
    let rest = slice_subrange(s, start, s.len());
    assert(rest@ =~= s@.skip(start as int));
    let n: usize = first_piece(rest, style);
    let first = copy_range(rest, 0, n);
    assert(first@ =~= rest@.take(n as int));
    let mut second: Vec<char> = Vec::new();
    let mut len: usize = start + n;
    if n < rest.len() {
        let tail = slice_subrange(rest, n + 1, rest.len());
        assert(tail@ =~= rest@.skip(n as int + 1));
        let m: usize = first_piece(tail, style);
        second = copy_range(tail, 0, m);
        assert(second@ =~= tail@.take(m as int));
        if m > 0 {
            len = start + n + 1 + m;
        }
    }
    assert(second@ =~= second_name(rest@, style));
    Prefix { kind, first, second, len }
}

fn find_name(kind: PrefixKind, s: &[char], style: PathStyle) -> (r: Prefix)
    requires
        s.len() >= 4,
    ensures
        r@ == named_prefix(kind, s@, style),
        r@.len <= s@.len(),
{
    let rest = slice_subrange(s, 4, s.len());
    assert(rest@ =~= s@.skip(4));
    let n: usize = first_piece(rest, style);
    let first = copy_range(rest, 0, n);
    assert(first@ =~= rest@.take(n as int));
    let second: Vec<char> = Vec::new();
    assert(second@ =~= Seq::empty());
    Prefix { kind, first, second, len: 4 + n }
}

fn find_verbatim(s: &[char]) -> (r: Prefix)
    requires
        s.len() >= 4,
    ensures
        r@ == verbatim_prefix(s@),
        r@.len <= s@.len(),
{
    if s.len() >= 8 && s[4] == 'U' && s[5] == 'N' && s[6] == 'C' && is_separator(
        s[7],
        PathStyle::Windows,
    ) {
        return find_share(PrefixKind::VerbatimShare, s, 8, PathStyle::Verbatim);
    }
    let rest = slice_subrange(s, 4, s.len());
    assert(rest@ =~= s@.skip(4));
    if find_drive(rest) && (s.len() == 6 || is_separator(s[6], PathStyle::Windows)) {
        return drive_prefix(PrefixKind::VerbatimDrive, s[4], 6);
    }
    find_name(PrefixKind::Verbatim, s, PathStyle::Verbatim)
}

fn find_prefix(s: &[char], windows: bool) -> (r: Option<Prefix>)
    ensures
        match r {
            Some(prefix) => prefix_of(s@, windows) == Some(prefix@) && prefix@.len <= s@.len()
                && prefix.len == prefix@.len && prefix.kind == prefix@.kind,
            None => prefix_of(s@, windows) is None,
        },
{
    if !windows {
        return None;
    }
    if s.len() >= 2 && is_separator(s[0], PathStyle::Windows) && is_separator(
        s[1],
        PathStyle::Windows,
    ) {
        if s.len() >= 4 && s[0] == '\\' && s[1] == '\\' && s[2] == '?' && s[3] == '\\' {
            return Some(find_verbatim(s));
        }
        if s.len() >= 4 && s[2] == '.' && is_separator(s[3], PathStyle::Windows) {
            return Some(find_name(PrefixKind::Device, s, PathStyle::Windows));
        }
        let share = find_share(PrefixKind::Share, s, 2, PathStyle::Windows);
        if share.first.len() > 0 && share.second.len() > 0 {
            return Some(share);
        }
        return None;
    }
    if find_drive(s) {
        return Some(drive_prefix(PrefixKind::Drive, s[0], 2));
    }
    None
}

/// How many characters the prefix of a path has.
pub open spec fn prefix_len(s: Seq<char>, windows: bool) -> nat {
    match prefix_of(s, windows) {
        Some(prefix) => prefix.len,
        None => 0,
    }
}

/// How a path is parted.
pub open spec fn style_of(s: Seq<char>, windows: bool) -> PathStyle {
    if !windows {
        PathStyle::Unix
    } else if prefix_of(s, windows) matches Some(prefix) && prefix.kind.verbatim() {
        PathStyle::Verbatim
    } else {
        PathStyle::Windows
    }
}

/// What follows the prefix of a path.
pub open spec fn body_of(s: Seq<char>, windows: bool) -> Seq<char> {
    s.skip(prefix_len(s, windows) as int)
}

/// The separators of a system.
pub open spec fn system_style(windows: bool) -> PathStyle {
    if windows {
        PathStyle::Windows
    } else {
        PathStyle::Unix
    }
}

/// Whether a separator follows the prefix of a path.
pub open spec fn rooted(s: Seq<char>, windows: bool) -> bool {
    body_of(s, windows).len() > 0 && parts_path(body_of(s, windows)[0], system_style(windows))
}

/// Whether the root is a component of a path: it is written, or a share or a device
/// stands before it.
pub open spec fn has_root_piece(s: Seq<char>, windows: bool) -> bool {
    rooted(s, windows) || (prefix_of(s, windows) matches Some(prefix) && (prefix.kind is Share
        || prefix.kind is Device))
}

/// Whether a path starts at a root: any prefix but a drive stands for one.
pub open spec fn at_root(s: Seq<char>, windows: bool) -> bool {
    rooted(s, windows) || (prefix_of(s, windows) matches Some(prefix) && !(prefix.kind is Drive))
}

/// The components of a path behind its prefix and its root.
pub open spec fn below_root(s: Seq<char>, windows: bool) -> Seq<char> {
    if rooted(s, windows) {
        skip_idle(body_of(s, windows).skip(1), style_of(s, windows))
    } else if prefix_of(s, windows) is Some {
        skip_idle(body_of(s, windows), style_of(s, windows))
    } else {
        s
    }
}

/// Whether nothing but a prefix is a component of a path.
pub open spec fn is_bare(s: Seq<char>, windows: bool) -> bool {
    !has_root_piece(s, windows) && below_root(s, windows).len() == 0
}

/// How much of the front of a path stays whatever follows, behind its prefix: a
/// separator at the root, or a single dot that starts a path without one.
pub open spec fn front_len(s: Seq<char>, windows: bool) -> nat {
    let body = body_of(s, windows);
    if rooted(s, windows) {
        1
    } else if !at_root(s, windows) && body.len() > 0 && body[0] == '.' && (body.len() == 1
        || parts_path(body[1], style_of(s, windows))) {
        1
    } else {
        0
    }
}

/// A path behind its prefix, without separators and single dots at its end.
pub open spec fn tail_of(s: Seq<char>, windows: bool) -> Seq<char> {
    let body = body_of(s, windows);
    let n = front_len(s, windows) as int;
    body.take(n) + trim_idle(body.skip(n), style_of(s, windows))
}

/// How two prefixes compare: `None` where they differ, and else whether the
/// components behind them are compared in any case. On Windows they are, unless the
/// prefixes are the same but for how they are written.
pub open spec fn prefixes_match(path: Seq<char>, home: Seq<char>, windows: bool) -> Option<bool> {
    match (prefix_of(path, windows), prefix_of(home, windows)) {
        (None, None) => Some(windows),
        (Some(p), Some(h)) => if same_piece(
            path.take(p.len as int),
            home.take(h.len as int),
            true,
        ) {
            Some(true)
        } else if p.kind == h.kind && p.first == h.first && p.second == h.second {
            Some(false)
        } else {
            None
        },
        _ => None,
    }
}

/// The part of a path below the home directory, where it lies there: the components
/// of the one are the first components of the other.
pub open spec fn relative(path: Seq<char>, home: Seq<char>, windows: bool) -> Option<Seq<char>> {
    if home.len() == 0 {
        Some(path.take(prefix_len(path, windows) as int) + tail_of(path, windows))
    } else {
        match prefixes_match(path, home, windows) {
            None => None,
            Some(any_case) => if is_bare(home, windows) {
                Some(tail_of(path, windows))
            } else if has_root_piece(path, windows) != has_root_piece(home, windows) {
                None
            } else {
                match behind(
                    below_root(path, windows),
                    below_root(home, windows),
                    style_of(path, windows),
                    any_case,
                ) {
                    Some(rest) => Some(trim_idle(rest, style_of(path, windows))),
                    None => None,
                }
            },
        }
    }
}

/// A path in its parts.
struct Anatomy<'a> {
    prefix: Option<Prefix>,
    body: &'a [char],
    style: PathStyle,
    rooted: bool,
}

impl<'a> Anatomy<'a> {
    closed spec fn of(self, s: Seq<char>, windows: bool) -> bool {
        &&& match self.prefix {
            Some(prefix) => prefix_of(s, windows) == Some(prefix@) && prefix@.len <= s.len()
                && prefix.len == prefix@.len && prefix.kind == prefix@.kind,
            None => prefix_of(s, windows) is None,
        }
        &&& self.body@ == body_of(s, windows)
        &&& self.style == style_of(s, windows)
        &&& self.rooted == rooted(s, windows)
    }

    fn prefix_len(&self) -> (r: usize)
        ensures
            forall|s: Seq<char>, windows: bool| #[trigger]
                self.of(s, windows) ==> r == prefix_len(s, windows) && r <= s.len(),
    {
        match &self.prefix {
            Some(prefix) => prefix.len,
            None => 0,
        }
    }

    fn has_root_piece(&self) -> (r: bool)
        ensures
            forall|s: Seq<char>, windows: bool| #[trigger]
                self.of(s, windows) ==> r == has_root_piece(s, windows),
    {
        if self.rooted {
            return true;
        }
        match &self.prefix {
            Some(prefix) => prefix.kind == PrefixKind::Share || prefix.kind == PrefixKind::Device,
            None => false,
        }
    }

    fn at_root(&self) -> (r: bool)
        ensures
            forall|s: Seq<char>, windows: bool| #[trigger]
                self.of(s, windows) ==> r == at_root(s, windows),
    {
        if self.rooted {
            return true;
        }
        match &self.prefix {
            Some(prefix) => prefix.kind != PrefixKind::Drive,
            None => false,
        }
    }

    fn below_root(&self) -> (r: &'a [char])
        ensures
            forall|s: Seq<char>, windows: bool| #[trigger]
                self.of(s, windows) ==> r@ == below_root(s, windows),
    {
        proof {
            assert forall|s: Seq<char>, windows: bool| #[trigger]
                self.of(s, windows) && self.prefix is None implies self.body@ == s by {
                assert(s.skip(0) =~= s);
            }
        }
        if self.rooted {
            if self.body.len() == 0 {
                return self.body;
            }
            skip_idle_chars(slice_subrange(self.body, 1, self.body.len()), self.style)
        } else if self.prefix.is_some() {
            skip_idle_chars(self.body, self.style)
        } else {
            self.body
        }
    }

    fn tail(&self) -> (r: Vec<char>)
        ensures
            forall|s: Seq<char>, windows: bool| #[trigger]
                self.of(s, windows) ==> r@ == tail_of(s, windows),
    {
        let rooted: bool = self.rooted && self.body.len() > 0;
        let dotted: bool = !self.at_root() && self.body.len() > 0 && self.body[0] == '.' && (
        self.body.len() == 1 || is_separator(self.body[1], self.style));
        let n: usize = if rooted || dotted {
            1
        } else {
            0
        };
        let mut r = copy_range(self.body, 0, n);
        let rest = trim_idle_chars(slice_subrange(self.body, n, self.body.len()), self.style);
        push_all(&mut r, rest);
        assert(self.body@.subrange(0, n as int) =~= self.body@.take(n as int));
        assert(self.body@.subrange(n as int, self.body@.len() as int) =~= self.body@.skip(
            n as int,
        ));
        r
    }
}

fn dissect<'a>(s: &'a [char], windows: bool) -> (r: Anatomy<'a>)
    ensures
        r.of(s@, windows),
{
    let prefix = find_prefix(s, windows);
    let (len, verbatim): (usize, bool) = match &prefix {
        Some(p) => (
            p.len,
            match p.kind {
                PrefixKind::VerbatimDrive | PrefixKind::VerbatimShare | PrefixKind::Verbatim => true,
                _ => false,
            },
        ),
        None => (0, false),
    };
    let style = if !windows {
        PathStyle::Unix
    } else if verbatim {
        PathStyle::Verbatim
    } else {
        PathStyle::Windows
    };
    let body = slice_subrange(s, len, s.len());
    assert(body@ =~= s@.skip(len as int));
    let rooted: bool = body.len() > 0 && is_separator(
        body[0],
        if windows {
            PathStyle::Windows
        } else {
            PathStyle::Unix
        },
    );
    Anatomy { prefix, body, style, rooted }
}

fn match_prefixes(path: &[char], home: &[char], p: &Anatomy, h: &Anatomy, windows: bool) -> (r:
    Option<bool>)
    requires
        p.of(path@, windows),
        h.of(home@, windows),
    ensures
        r == prefixes_match(path@, home@, windows),
{
    match (&p.prefix, &h.prefix) {
        (None, None) => Some(windows),
        (Some(a), Some(b)) => {
            if same_pieces(
                slice_subrange(path, 0, a.len),
                slice_subrange(home, 0, b.len),
                true,
            ) {
                Some(true)
            } else if a.kind == b.kind && same_pieces(
                a.first.as_slice(),
                b.first.as_slice(),
                false,
            ) && same_pieces(a.second.as_slice(), b.second.as_slice(), false) {
                Some(false)
            } else {
                None
            }
        },
        _ => None,
    }
}

/// The part of a path below the home directory, where it lies there.
pub fn relative_to_home(path: &str, home: &str, windows: bool) -> (r: Option<String>)
    ensures
        match r {
            Some(rest) => relative(path@, home@, windows) == Some(rest@),
            None => relative(path@, home@, windows) is None,
        },
{
    let path_chars = chars_of(path);
    let home_chars = chars_of(home);
    let p = dissect(path_chars.as_slice(), windows);
    if home_chars.len() == 0 {
        let n: usize = p.prefix_len();
        let mut whole = copy_range(path_chars.as_slice(), 0, n);
        let tail = p.tail();
        push_all(&mut whole, tail.as_slice());
        assert(path@.subrange(0, n as int) =~= path@.take(n as int));
        return Some(text_of(whole.as_slice()));
    }
    let h = dissect(home_chars.as_slice(), windows);
    let any_case: bool = match match_prefixes(
        path_chars.as_slice(),
        home_chars.as_slice(),
        &p,
        &h,
        windows,
    ) {
        Some(any_case) => any_case,
        None => {
            return None;
        },
    };
    let home_root: bool = h.has_root_piece();
    let below_home = h.below_root();
    if !home_root && below_home.len() == 0 {
        let tail = p.tail();
        return Some(text_of(tail.as_slice()));
    }
    if p.has_root_piece() != home_root {
        return None;
    }
    match behind_chars(p.below_root(), below_home, p.style, any_case) {
        Some(rest) => Some(text_of(trim_idle_chars(rest, p.style))),
        None => None,
    }
}

/// How a path is shown: with a tilde for the home directory.
pub open spec fn compacted(path: Seq<char>, home: Option<Seq<char>>, windows: bool) -> Seq<char> {
    match home {
        Some(h) => match relative(path, h, windows) {
            Some(rest) => if rest.len() == 0 {
                "~"@
            } else {
                "~"@ + main_separator(windows) + rest
            },
            None => path,
        },
        None => path,
    }
}

pub open spec fn main_separator(windows: bool) -> Seq<char> {
    if windows {
        "\\"@
    } else {
        "/"@
    }
}

/// How a path is shown; `home` is the home directory where it is known.
pub fn compact_local_path(path: &str, home: &Option<String>, windows: bool) -> (r: String)
    ensures
        r@ == compacted(
            path@,
            match home {
                Some(h) => Some(h@),
                None => None,
            },
            windows,
        ),
{
    if let Some(h) = home {
        if let Some(rest) = relative_to_home(path, h.as_str(), windows) {
            let rest_chars = chars_of(rest.as_str());
            if rest_chars.len() == 0 {
                return "~".to_string();
            }
            let mut shown: Vec<char> = chars_of("~");
            let separator = chars_of(
                if windows {
                    "\\"
                } else {
                    "/"
                },
            );
            push_all(&mut shown, separator.as_slice());
            push_all(&mut shown, rest_chars.as_slice());
            return text_of(shown.as_slice());
        }
    }
    path.to_string()
}

pub proof fn lemma_after_skip(s: Seq<char>, style: PathStyle)
    ensures
        !starts_idle(skip_idle(s, style), style),
    decreases s.len(),
{
    if starts_idle(s, style) {
        lemma_after_skip(s.skip(1), style);
    }
}

proof fn lemma_behind_itself(s: Seq<char>, style: PathStyle, any_case: bool)
    requires
        s.len() == 0 || !parts_path(s[0], style),
    ensures
        behind(s, s, style, any_case) == Some(Seq::<char>::empty()),
    decreases s.len(),
{
    if s.len() == 0 {
        assert(s =~= Seq::<char>::empty());
    } else {
        lemma_piece_len(s, style);
        let rest = skip_idle(s.skip(piece_len(s, style) as int), style);
        lemma_skip_idle(s.skip(piece_len(s, style) as int), style);
        lemma_after_skip(s.skip(piece_len(s, style) as int), style);
        lemma_behind_itself(rest, style, any_case);
    }
}

/// The home directory itself is shown as a tilde, unless it is a drive with nothing
/// but a single dot behind it.
pub proof fn home_is_shown_as_a_tilde(home: Seq<char>, windows: bool)
    requires
        is_bare(home, windows) ==> tail_of(home, windows).len() == 0,
    ensures
        compacted(home, Some(home), windows) == "~"@,
{
    let style = style_of(home, windows);
    if home.len() == 0 {
        assert(prefix_of(home, windows) is None);
        assert(home.skip(0) =~= home);
        assert(body_of(home, windows).take(0) =~= Seq::empty());
        assert(relative(home, home, windows)->0.len() == 0);
    } else if !is_bare(home, windows) {
        if rooted(home, windows) {
            lemma_after_skip(body_of(home, windows).skip(1), style);
        } else if prefix_of(home, windows) is Some {
            lemma_after_skip(body_of(home, windows), style);
        } else {
            assert(home.skip(0) =~= home);
        }
        lemma_behind_itself(
            below_root(home, windows),
            style,
            prefixes_match(home, home, windows)->0,
        );
        assert(trim_idle(Seq::<char>::empty(), style).len() == 0);
    }
}

/// The title of a local terminal before its shell reports a directory.
pub open spec fn first_title(
    directory: Option<Seq<char>>,
    home: Option<Seq<char>>,
    windows: bool,
) -> Seq<char> {
    match directory {
        Some(path) => compacted(path, home, windows),
        None => if windows {
            "PowerShell"@
        } else {
            "Local"@
        },
    }
}

/// The title of a local terminal that starts in the directory, if in any.
pub fn initial_local_title(
    directory: &Option<String>,
    home: &Option<String>,
    windows: bool,
) -> (r: String)
    ensures
        r@ == first_title(
            match directory {
                Some(d) => Some(d@),
                None => None,
            },
            match home {
                Some(h) => Some(h@),
                None => None,
            },
            windows,
        ),
{
    match directory {
        Some(path) => compact_local_path(path.as_str(), home, windows),
        None => if windows {
            "PowerShell".to_string()
        } else {
            "Local".to_string()
        },
    }
}

/// Whether a path names its place without regard to the current directory: on
/// Windows it has a prefix and starts at a root.
pub open spec fn absolute(s: Seq<char>, windows: bool) -> bool {
    at_root(s, windows) && (windows ==> prefix_of(s, windows) is Some)
}

/// Whether a path names its place without regard to the current directory.
pub fn is_absolute(path: &str, windows: bool) -> (r: bool)
    ensures
        r == absolute(path@, windows),
{
    let s = chars_of(path);
    let parts = dissect(s.as_slice(), windows);
    parts.at_root() && (!windows || parts.prefix.is_some())
}

/// The components of a path without its prefix and its root. Single dots are none but
/// in a path that is taken as it is written.
pub open spec fn pieces_of(s: Seq<char>, style: PathStyle) -> Seq<Seq<char>>
    decreases s.len(),
{
    let rest = skip_idle(s, style);
    let n = piece_len(rest, style);
    proof {
        lemma_skip_idle(s, style);
        lemma_piece_len(rest, style);
        lemma_after_skip(s, style);
    }
    if rest.len() == 0 {
        Seq::empty()
    } else {
        seq![rest.take(n as int)] + pieces_of(rest.skip(n as int), style)
    }
}

/// Puts the components of the rest of a path behind those that are there.
fn push_pieces(r: &mut Vec<Vec<char>>, s: &[char], style: PathStyle)
    ensures
        views(final(r)@) == views(old(r)@) + pieces_of(s@, style),
    decreases s.len(),
{
    let rest = skip_idle_chars(s, style);
    if rest.len() == 0 {
        assert(views(r@) =~= views(r@) + pieces_of(s@, style));
        return ;
    }
    let n: usize = first_piece(rest, style);
    proof {
        lemma_piece_len(rest@, style);
        lemma_after_skip(s@, style);
    }
    let piece = copy_range(rest, 0, n);
    assert(piece@ =~= rest@.take(n as int));
    let ghost before = views(r@);
    r.push(piece);
    assert(views(r@) =~= before.push(piece@));
    push_pieces(r, slice_subrange(rest, n, rest.len()), style);
    assert(rest@.subrange(n as int, rest@.len() as int) =~= rest@.skip(n as int));
    assert(views(r@) =~= before + pieces_of(s@, style));
}

/// Whether a component is a name, and no dot or two.
pub open spec fn is_name(piece: Seq<char>) -> bool {
    piece != "."@ && piece != ".."@
}

/// The components with more behind them: two dots take a name away.
pub open spec fn walked(pieces: Seq<Seq<char>>, more: Seq<Seq<char>>) -> Seq<Seq<char>>
    decreases more.len(),
{
    if more.len() == 0 {
        pieces
    } else {
        let before = walked(pieces, more.drop_last());
        if more.last() != ".."@ {
            before.push(more.last())
        } else if before.len() > 0 && is_name(before.last()) {
            before.drop_last()
        } else {
            before
        }
    }
}

fn walk(pieces: &mut Vec<Vec<char>>, more: &Vec<Vec<char>>)
    ensures
        views(final(pieces)@) == walked(views(old(pieces)@), views(more@)),
{
    let dot = chars_of(".");
    let dots = chars_of("..");
    let ghost start = views(pieces@);
    let ghost all = views(more@);
    let mut i: usize = 0;
    assert(all.take(0) =~= Seq::empty());
    while i < more.len()
        invariant
            i <= more@.len(),
            dot@ == "."@,
            dots@ == ".."@,
            all == views(more@),
            views(pieces@) == walked(start, all.take(i as int)),
        decreases more.len() - i,
    {
        let ghost before = views(pieces@);
        assert(all.take(i + 1).drop_last() =~= all.take(i as int));
        assert(all.take(i + 1).last() == more@[i as int]@);
        if !same_pieces(more[i].as_slice(), dots.as_slice(), false) {
            pieces.push(copy_range(more[i].as_slice(), 0, more[i].len()));
            assert(more@[i as int]@.subrange(0, more@[i as int]@.len() as int)
                =~= more@[i as int]@);
            assert(views(pieces@) =~= before.push(more@[i as int]@));
        } else if pieces.len() > 0 {
            let last: usize = pieces.len() - 1;
            assert(before.last() == pieces@[last as int]@);
            if !same_pieces(pieces[last].as_slice(), dot.as_slice(), false) && !same_pieces(
                pieces[last].as_slice(),
                dots.as_slice(),
                false,
            ) {
                let _ = pieces.pop();
                assert(views(pieces@) =~= before.drop_last());
            }
        }
        i += 1;
    }
    assert(all.take(i as int) =~= all);
}

/// A path below a directory that is taken as it is written.
pub open spec fn joined_verbatim(directory: Seq<char>, path: Seq<char>) -> Seq<char> {
    let body = body_of(directory, true);
    let start = if rooted(path, true) {
        Seq::empty()
    } else if rooted(directory, true) {
        pieces_of(body.skip(1), PathStyle::Verbatim)
    } else {
        pieces_of(body, PathStyle::Verbatim)
    };
    let pieces = walked(start, pieces_of(path, PathStyle::Windows));
    let parted = rooted(directory, true) || rooted(path, true) || pieces.len() > 0;
    directory.take(prefix_len(directory, true) as int) + (if parted {
        "\\"@
    } else {
        Seq::empty()
    }) + join(pieces, "\\"@)
}

/// Whether a separator has to follow a directory: none follows one, nor a drive alone.
pub open spec fn needs_separator(directory: Seq<char>, windows: bool) -> bool {
    &&& directory.len() > 0
    &&& !parts_path(directory.last(), system_style(windows))
    &&& !(prefix_of(directory, windows) matches Some(prefix) && prefix.kind is Drive
        && prefix.len == directory.len())
}

/// A path below a directory. One with a prefix stays as it is, and so does one that
/// starts at the root, but for the prefix of the directory.
pub open spec fn joined_path(directory: Seq<char>, path: Seq<char>, windows: bool) -> Seq<char> {
    if prefix_of(path, windows) is Some || (!windows && rooted(path, windows)) {
        path
    } else if style_of(directory, windows) == PathStyle::Verbatim && path.len() > 0 {
        joined_verbatim(directory, path)
    } else if rooted(path, windows) {
        directory.take(prefix_len(directory, windows) as int) + path
    } else if needs_separator(directory, windows) {
        directory + main_separator(windows) + path
    } else {
        directory + path
    }
}

fn join_verbatim(directory: &[char], path: &[char], d: &Anatomy, path_rooted: bool) -> (r: Vec<
    char,
>)
    requires
        d.of(directory@, true),
        path_rooted == rooted(path@, true),
    ensures
        r@ == joined_verbatim(directory@, path@),
{
    let mut pieces: Vec<Vec<char>> = Vec::new();
    assert(views(pieces@) =~= Seq::empty());
    if !path_rooted {
        if d.rooted {
            push_pieces(
                &mut pieces,
                slice_subrange(d.body, 1, d.body.len()),
                PathStyle::Verbatim,
            );
            assert(d.body@.subrange(1, d.body@.len() as int) =~= d.body@.skip(1));
        } else {
            push_pieces(&mut pieces, d.body, PathStyle::Verbatim);
        }
    }
    let ghost start = if path_rooted {
        Seq::empty()
    } else if d.rooted {
        pieces_of(d.body@.skip(1), PathStyle::Verbatim)
    } else {
        pieces_of(d.body@, PathStyle::Verbatim)
    };
    assert(views(pieces@) =~= start);
    let mut more: Vec<Vec<char>> = Vec::new();
    assert(views(more@) =~= Seq::empty());
    push_pieces(&mut more, path, PathStyle::Windows);
    assert(views(more@) =~= pieces_of(path@, PathStyle::Windows));
    walk(&mut pieces, &more);
    let n: usize = d.prefix_len();
    let mut r = copy_range(directory, 0, n);
    assert(r@ =~= directory@.take(n as int));
    if d.rooted || path_rooted || pieces.len() > 0 {
        let separator = chars_of("\\");
        push_all(&mut r, separator.as_slice());
    }
    let tail = join_chars(pieces.as_slice(), "\\");
    push_all(&mut r, tail.as_slice());
    assert(r@ =~= joined_verbatim(directory@, path@));
    r
}

/// A path below a directory.
pub fn join_path(directory: &str, path: &str, windows: bool) -> (r: String)
    ensures
        r@ == joined_path(directory@, path@, windows),
{
    let d_chars = chars_of(directory);
    let p_chars = chars_of(path);
    let d = dissect(d_chars.as_slice(), windows);
    let p = dissect(p_chars.as_slice(), windows);
    if p.prefix.is_some() || (!windows && p.rooted) {
        return path.to_string();
    }
    if d.style == PathStyle::Verbatim && p_chars.len() > 0 {
        let joined = join_verbatim(d_chars.as_slice(), p_chars.as_slice(), &d, p.rooted);
        return text_of(joined.as_slice());
    }
    if p.rooted {
        let n: usize = d.prefix_len();
        let mut r = copy_range(d_chars.as_slice(), 0, n);
        assert(r@ =~= directory@.take(n as int));
        push_all(&mut r, p_chars.as_slice());
        return text_of(r.as_slice());
    }
    let style = if windows {
        PathStyle::Windows
    } else {
        PathStyle::Unix
    };
    let alone: bool = match &d.prefix {
        Some(prefix) => prefix.kind == PrefixKind::Drive && prefix.len == d_chars.len(),
        None => false,
    };
    let mut r = directory.to_string();
    if d_chars.len() > 0 && !is_separator(d_chars[d_chars.len() - 1], style) && !alone {
        r.append(
            if windows {
                "\\"
            } else {
                "/"
            },
        );
    }
    r.append(path);
    r
}

/// A path behind its root without what says nothing: separators at its end and single
/// dots behind a separator.
pub open spec fn plain_end(s: Seq<char>, style: PathStyle) -> Seq<char>
    decreases s.len(),
{
    if s.len() > 0 && parts_path(s.last(), style) {
        plain_end(s.drop_last(), style)
    } else if style != PathStyle::Verbatim && s.len() > 1 && s.last() == '.' && parts_path(
        s[s.len() - 2],
        style,
    ) {
        plain_end(s.drop_last(), style)
    } else {
        s
    }
}

/// The position behind the last separator, or zero where there is none.
pub open spec fn name_start(s: Seq<char>, style: PathStyle) -> nat
    decreases s.len(),
{
    if s.len() == 0 {
        0
    } else if parts_path(s.last(), style) {
        s.len()
    } else {
        name_start(s.drop_last(), style)
    }
}

/// The position behind the last dot, or zero where there is none.
pub open spec fn after_dot(s: Seq<char>) -> nat
    decreases s.len(),
{
    if s.len() == 0 {
        0
    } else if s.last() == '.' {
        s.len()
    } else {
        after_dot(s.drop_last())
    }
}

/// The length of a file name without its extension; a dot at its start begins none.
pub open spec fn stem_len(name: Seq<char>) -> nat {
    if after_dot(name) > 1 {
        (after_dot(name) - 1) as nat
    } else {
        name.len()
    }
}

/// How much of a path its prefix and its root take.
pub open spec fn anchor_len(s: Seq<char>, windows: bool) -> nat {
    prefix_len(s, windows) + (if rooted(s, windows) {
        1
    } else {
        0nat
    })
}

/// The path with the extension in place of the one that its file name has. A path
/// that names no file stays as it is.
pub open spec fn with_extension(
    path: Seq<char>,
    extension: Seq<char>,
    windows: bool,
) -> Seq<char> {
    let style = style_of(path, windows);
    let start = anchor_len(path, windows) as int;
    let plain = plain_end(path.skip(start), style);
    let at = name_start(plain, style) as int;
    let name = plain.skip(at);
    if name.len() == 0 || !is_name(name) {
        path
    } else {
        path.take(start) + plain.take(at + stem_len(name)) + "."@ + extension
    }
}

fn plain_end_chars<'a>(s: &'a [char], style: PathStyle) -> (r: &'a [char])
    ensures
        r@ == plain_end(s@, style),
{
    let mut n: usize = s.len();
    assert(s@.take(n as int) =~= s@);
    while n > 0 && (is_separator(s[n - 1], style) || (style != PathStyle::Verbatim && n > 1
        && s[n - 1] == '.' && is_separator(s[n - 2], style)))
        invariant
            n <= s.len(),
            plain_end(s@, style) == plain_end(s@.take(n as int), style),
        decreases n,
    {
        assert(s@.take(n as int).drop_last() =~= s@.take(n - 1));
        n -= 1;
    }
    slice_subrange(s, 0, n)
}

fn find_name_start(s: &[char], style: PathStyle) -> (r: usize)
    ensures
        r == name_start(s@, style),
        r <= s@.len(),
{
    let mut n: usize = s.len();
    assert(s@.take(n as int) =~= s@);
    while n > 0 && !is_separator(s[n - 1], style)
        invariant
            n <= s.len(),
            name_start(s@, style) == name_start(s@.take(n as int), style),
        decreases n,
    {
        assert(s@.take(n as int).drop_last() =~= s@.take(n - 1));
        n -= 1;
    }
    n
}

fn find_stem(name: &[char]) -> (r: usize)
    ensures
        r == stem_len(name@),
        r <= name@.len(),
{
    let mut n: usize = name.len();
    assert(name@.take(n as int) =~= name@);
    while n > 0 && name[n - 1] != '.'
        invariant
            n <= name.len(),
            after_dot(name@) == after_dot(name@.take(n as int)),
        decreases n,
    {
        assert(name@.take(n as int).drop_last() =~= name@.take(n - 1));
        n -= 1;
    }
    if n > 1 {
        n - 1
    } else {
        name.len()
    }
}

/// The path with the extension in place of the one that its file name has.
pub fn change_extension(path: &str, extension: &str, windows: bool) -> (r: String)
    ensures
        r@ == with_extension(path@, extension@, windows),
{
    let cs = chars_of(path);
    let parts = dissect(cs.as_slice(), windows);
    let n: usize = parts.prefix_len();
    assert(parts.rooted ==> n < cs@.len());
    let start: usize = if parts.rooted {
        n + 1
    } else {
        n
    };
    let rest = slice_subrange(cs.as_slice(), start, cs.len());
    assert(rest@ =~= path@.skip(start as int));
    let plain = plain_end_chars(rest, parts.style);
    let at: usize = find_name_start(plain, parts.style);
    let name = slice_subrange(plain, at, plain.len());
    assert(name@ =~= plain@.skip(at as int));
    let dot = chars_of(".");
    let dots = chars_of("..");
    if name.len() == 0 || same_pieces(name, dot.as_slice(), false) || same_pieces(
        name,
        dots.as_slice(),
        false,
    ) {
        return path.to_string();
    }
    let stem: usize = find_stem(name);
    let mut r = copy_range(cs.as_slice(), 0, start);
    assert(r@ =~= path@.take(start as int));
    let kept = copy_range(plain, 0, at + stem);
    assert(kept@ =~= plain@.take(at + stem));
    push_all(&mut r, kept.as_slice());
    push_all(&mut r, dot.as_slice());
    let end = chars_of(extension);
    push_all(&mut r, end.as_slice());
    text_of(r.as_slice())
}

/// `String::from_utf8` gives the text that bytes encode, and refuses bytes that
/// are not UTF-8.
#[verifier::external_body]
fn text_from_utf8(bytes: Vec<u8>) -> (r: Option<String>)
    ensures
        match r {
            Some(text) => valid_utf8(bytes@) && text@ == decode_utf8(bytes@),
            None => !valid_utf8(bytes@),
        },
{
    String::from_utf8(bytes).ok()
}

/// The path that bytes name: their text, where it is an absolute path.
pub open spec fn named_path(bytes: Seq<u8>, windows: bool) -> Option<Seq<char>> {
    if valid_utf8(bytes) && absolute(decode_utf8(bytes), windows) {
        Some(decode_utf8(bytes))
    } else {
        None
    }
}

/// The path that bytes name.
pub fn path_from_bytes(bytes: Vec<u8>, windows: bool) -> (r: Option<String>)
    ensures
        match r {
            Some(path) => named_path(bytes@, windows) == Some(path@),
            None => named_path(bytes@, windows) is None,
        },
{
    match text_from_utf8(bytes) {
        Some(path) => if is_absolute(path.as_str(), windows) {
            Some(path)
        } else {
            None
        },
        None => None,
    }
}

/// The directory that a shell reports in its title, written in Base64.
pub fn decode_local_path_title(encoded: &str, windows: bool) -> (r: Option<String>)
    ensures
        ({
            let path = match base64_bytes(trim(encoded@)) {
                Some(bytes) => named_path(bytes, windows),
                None => None,
            };
            match r {
                Some(p) => path == Some(p@),
                None => path is None,
            }
        }),
{
    let trimmed = trim_text(encoded);
    match base64_decode(trimmed.as_str()) {
        Some(bytes) => path_from_bytes(bytes, windows),
        None => None,
    }
}

} // verus!
