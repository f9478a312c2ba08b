//! Text as a sequence of characters: trimming, splitting, decimal numbers and
//! comparison.
use vstd::prelude::*;
use vstd::slice::slice_subrange;
use vstd::utf8::{decode_utf8, valid_utf8};

verus! {

/// `String::push` puts one character at the end of the text.
pub assume_specification[ String::push ](text: &mut String, c: char)
    ensures
        final(text)@ == old(text)@.push(c),
;

/// `==` on string slices (`str::eq`) compares their characters.
#[verifier::external_body]
pub(crate) fn same_text(a: &str, b: &str) -> (r: bool)
    ensures
        r == (a@ == b@),
{
    a == b
}

/// The characters of a text.
pub fn chars_of(s: &str) -> (r: Vec<char>)
    ensures
        r@ == s@,
{
    let mut r: Vec<char> = Vec::new();
    for c in it: s.chars()
        invariant
            r@ == it.seq().take(it.index() as int),
            it.seq() == s@,
    {
        r.push(c);
        assert(it.seq().take(it.index() as int + 1) =~= it.seq().take(it.index() as int).push(c));
    }
    assert(r@ =~= s@);
    r
}

/// The text that holds the given characters.
pub fn text_of(cs: &[char]) -> (r: String)
    ensures
        r@ == cs@,
{
    let mut r = String::new();
    let mut i: usize = 0;
    while i < cs.len()
        invariant
            i <= cs.len(),
            r@ == cs@.take(i as int),
        decreases cs.len() - i,
    {
        r.push(cs[i]);
        assert(cs@.take(i + 1) =~= cs@.take(i as int).push(cs@[i as int]));
        i += 1;
    }
    assert(cs@.take(i as int) =~= cs@);
    r
}

/// The characters with the Unicode property `White_Space`.
pub open spec fn is_white(c: char) -> bool {
    ||| 0x09 <= c as int <= 0x0d
    ||| c as int == 0x20
    ||| c as int == 0x85
    ||| c as int == 0xa0
    ||| c as int == 0x1680
    ||| 0x2000 <= c as int <= 0x200a
    ||| c as int == 0x2028
    ||| c as int == 0x2029
    ||| c as int == 0x202f
    ||| c as int == 0x205f
    ||| c as int == 0x3000
}

pub fn is_white_char(c: char) -> (r: bool)
    ensures
        r == is_white(c),
{
    let n: u32 = c as u32;
    (0x09 <= n && n <= 0x0d) || n == 0x20 || n == 0x85 || n == 0xa0 || n == 0x1680 || (0x2000 <= n
        && n <= 0x200a) || n == 0x2028 || n == 0x2029 || n == 0x202f || n == 0x205f || n == 0x3000
}

/// The text without its leading white space.
pub open spec fn trim_start(s: Seq<char>) -> Seq<char>
    decreases s.len(),
{
    if s.len() > 0 && is_white(s[0]) {
        trim_start(s.skip(1))
    } else {
        s
    }
}

/// The text without its trailing white space.
pub open spec fn trim_end(s: Seq<char>) -> Seq<char>
    decreases s.len(),
{
    if s.len() > 0 && is_white(s.last()) {
        trim_end(s.drop_last())
    } else {
        s
    }
}

/// The text without white space at either end.
pub open spec fn trim(s: Seq<char>) -> Seq<char> {
    trim_end(trim_start(s))
}

pub fn trim_chars(s: &[char]) -> (r: &[char])
    ensures
        r@ == trim(s@),
{
    let mut from: usize = 0;
    assert(s@.skip(0) =~= s@);
    while from < s.len() && is_white_char(s[from])
        invariant
            from <= s.len(),
            trim_start(s@) == trim_start(s@.skip(from as int)),
        decreases s.len() - from,
    {
        assert(s@.skip(from as int).skip(1) =~= s@.skip(from as int + 1));
        from += 1;
    }
    let ghost rest = s@.skip(from as int);
    let mut to: usize = s.len();
    assert(s@.subrange(from as int, to as int) =~= rest);
    while to > from && is_white_char(s[to - 1])
        invariant
            from <= to <= s.len(),
            trim_end(rest) == trim_end(s@.subrange(from as int, to as int)),
        decreases to,
    {
        assert(s@.subrange(from as int, to as int).drop_last() =~= s@.subrange(
            from as int,
            to - 1,
        ));
        to -= 1;
    }
    slice_subrange(s, from, to)
}

/// The given text without white space at either end.
pub fn trim_text(s: &str) -> (r: String)
    ensures
        r@ == trim(s@),
{
    let cs = chars_of(s);
    text_of(trim_chars(cs.as_slice()))
}

/// The position of the first `c`, or the length where there is none.
pub open spec fn find_char(s: Seq<char>, c: char) -> nat
    decreases s.len(),
{
    if s.len() == 0 || s[0] == c {
        0
    } else {
        1 + find_char(s.skip(1), c)
    }
}

pub proof fn lemma_find_char(s: Seq<char>, c: char, i: int)
    requires
        0 <= i <= s.len(),
        forall|k: int| 0 <= k < i ==> s[k] != c,
        i < s.len() ==> s[i] == c,
    ensures
        find_char(s, c) == i,
    decreases s.len(),
{
    if i > 0 {
        lemma_find_char(s.skip(1), c, i - 1);
    }
}

pub fn find_char_from(s: &[char], c: char, from: usize) -> (r: usize)
    requires
        from <= s.len(),
    ensures
        from <= r <= s.len(),
        r == from + find_char(s@.skip(from as int), c),
        r < s.len() ==> s@[r as int] == c,
{
    let mut i: usize = from;
    while i < s.len() && s[i] != c
        invariant
            from <= i <= s.len(),
            forall|k: int| from <= k < i ==> s@[k] != c,
        decreases s.len() - i,
    {
        i += 1;
    }
    proof {
        lemma_find_char(s@.skip(from as int), c, i - from);
    }
    i
}

/// The pieces of `s` between the occurrences of `c`.
pub open spec fn split(s: Seq<char>, c: char) -> Seq<Seq<char>>
    decreases s.len(),
{
    let i = find_char(s, c);
    if i < s.len() {
        seq![s.take(i as int)] + split(s.skip(i as int + 1), c)
    } else {
        seq![s]
    }
}

/// The first `n - 1` pieces of `s` between the occurrences of `c`, and the rest.
pub open spec fn splitn(s: Seq<char>, n: nat, c: char) -> Seq<Seq<char>>
    decreases n,
{
    let i = find_char(s, c);
    if n == 0 {
        Seq::empty()
    } else if n > 1 && i < s.len() {
        seq![s.take(i as int)] + splitn(s.skip(i as int + 1), (n - 1) as nat, c)
    } else {
        seq![s]
    }
}

/// The texts of a list of character sequences.
pub open spec fn views(v: Seq<Vec<char>>) -> Seq<Seq<char>> {
    v.map_values(|cs: Vec<char>| cs@)
}

/// The characters of a list of texts.
pub open spec fn texts(v: Seq<String>) -> Seq<Seq<char>> {
    v.map_values(|t: String| t@)
}

/// An optional text as its characters.
pub open spec fn option_text(t: Option<String>) -> Option<Seq<char>> {
    match t {
        Some(s) => Some(s@),
        None => None,
    }
}

pub fn copy_range(s: &[char], from: usize, to: usize) -> (r: Vec<char>)
    requires
        from <= to <= s.len(),
    ensures
        r@ == s@.subrange(from as int, to as int),
{
    let mut r: Vec<char> = Vec::new();
    let mut i: usize = from;
    while i < to
        invariant
            from <= i <= to <= s.len(),
            r@ == s@.subrange(from as int, i as int),
        decreases to - i,
    {
        r.push(s[i]);
        assert(s@.subrange(from as int, i + 1) =~= s@.subrange(from as int, i as int).push(
            s@[i as int],
        ));
        i += 1;
    }
    r
}

pub fn split_chars(s: &[char], c: char) -> (r: Vec<Vec<char>>)
    ensures
        views(r@) == split(s@, c),
        r@.len() > 0,
{
    let mut r: Vec<Vec<char>> = Vec::new();
    let mut from: usize = 0;
    assert(s@.skip(0) =~= s@);
    assert(views(r@) + split(s@, c) =~= split(s@, c));
    loop
        invariant_except_break
            from <= s.len(),
            views(r@) + split(s@.skip(from as int), c) == split(s@, c),
        ensures
            views(r@) == split(s@, c),
            r@.len() > 0,
        decreases s.len() - from,
    {
        let at = find_char_from(s, c, from);
        let ghost rest = s@.skip(from as int);
        let ghost before = r@;
        let piece = copy_range(s, from, at);
        assert(piece@ =~= rest.take(at - from));
        r.push(piece);
        assert(views(r@) =~= views(before).push(piece@));
        if at < s.len() {
            assert(rest.skip(at - from + 1) =~= s@.skip(at + 1));
            assert(views(r@) + split(s@.skip(at + 1), c) =~= views(before) + (seq![
                rest.take(at - from),
            ] + split(rest.skip(at - from + 1), c)));
            from = at + 1;
        } else {
            assert(rest.take(at - from) =~= rest);
            assert(views(r@) =~= views(before) + split(rest, c));
            break;
        }
    }
    r
}

pub fn splitn_chars(s: &[char], n: usize, c: char) -> (r: Vec<Vec<char>>)
    ensures
        views(r@) == splitn(s@, n as nat, c),
{
    let mut r: Vec<Vec<char>> = Vec::new();
    let mut from: usize = 0;
    let mut left: usize = n;
    assert(s@.skip(0) =~= s@);
    assert(views(r@) + splitn(s@, n as nat, c) =~= splitn(s@, n as nat, c));
    while left > 0
        invariant_except_break
            from <= s.len(),
            left <= n,
            views(r@) + splitn(s@.skip(from as int), left as nat, c) == splitn(s@, n as nat, c),
        ensures
            views(r@) == splitn(s@, n as nat, c),
        decreases left,
    {
        let ghost rest = s@.skip(from as int);
        let ghost before = r@;
        let at = find_char_from(s, c, from);
        if left > 1 && at < s.len() {
            let piece = copy_range(s, from, at);
            assert(piece@ =~= rest.take(at - from));
            r.push(piece);
            assert(views(r@) =~= views(before).push(piece@));
            assert(rest.skip(at - from + 1) =~= s@.skip(at + 1));
            assert(views(r@) + splitn(s@.skip(at + 1), (left - 1) as nat, c) =~= views(before) + (
            seq![rest.take(at - from)] + splitn(rest.skip(at - from + 1), (left - 1) as nat, c)));
            from = at + 1;
            left -= 1;
        } else {
            let piece = copy_range(s, from, s.len());
            assert(piece@ =~= rest);
            r.push(piece);
            assert(views(r@) =~= views(before).push(piece@));
            assert(views(r@) =~= views(before) + splitn(rest, left as nat, c));
            break;
        }
    }
    r
}

/// A line that a line feed ends, without the carriage return before it.
pub open spec fn without_return(s: Seq<char>) -> Seq<char> {
    if s.len() > 0 && s.last() == '\r' {
        s.drop_last()
    } else {
        s
    }
}

/// The lines of a text. A line ends with a line feed or a carriage return and
/// a line feed; the last line ending is optional.
pub open spec fn lines(s: Seq<char>) -> Seq<Seq<char>>
    decreases s.len(),
{
    let i = find_char(s, '\n');
    if s.len() == 0 {
        Seq::empty()
    } else if i < s.len() {
        seq![without_return(s.take(i as int))] + lines(s.skip(i as int + 1))
    } else {
        seq![s]
    }
}

pub fn line_chars(s: &[char]) -> (r: Vec<Vec<char>>)
    ensures
        views(r@) == lines(s@),
{
    let mut r: Vec<Vec<char>> = Vec::new();
    let mut from: usize = 0;
    assert(s@.skip(0) =~= s@);
    assert(views(r@) + lines(s@) =~= lines(s@));
    while from < s.len()
        invariant
            from <= s.len(),
            views(r@) + lines(s@.skip(from as int)) == lines(s@),
        decreases s.len() - from,
    {
        let ghost rest = s@.skip(from as int);
        let ghost before = r@;
        let at = find_char_from(s, '\n', from);
        let to: usize = if at < s.len() && from < at && s[at - 1] == '\r' {
            at - 1
        } else {
            at
        };
        let line = copy_range(s, from, to);
        r.push(line);
        assert(views(r@) =~= views(before).push(line@));
        if at < s.len() {
            assert(line@ =~= without_return(rest.take(at - from)));
            assert(rest.skip(at - from + 1) =~= s@.skip(at + 1));
            assert(views(r@) + lines(s@.skip(at + 1)) =~= views(before) + (seq![
                without_return(rest.take(at - from)),
            ] + lines(rest.skip(at - from + 1))));
            from = at + 1;
        } else {
            assert(line@ =~= rest);
            assert(s@.skip(at as int).len() == 0);
            assert(lines(s@.skip(at as int)) =~= Seq::empty());
            assert(views(r@) + lines(s@.skip(at as int)) =~= views(before) + lines(rest));
            from = at;
        }
    }
    assert(lines(s@.skip(from as int)) =~= Seq::empty());
    assert(views(r@) + Seq::<Seq<char>>::empty() =~= views(r@));
    r
}

/// The length of the run of characters before the first white space.
pub open spec fn word_len(s: Seq<char>) -> nat
    decreases s.len(),
{
    if s.len() == 0 || is_white(s[0]) {
        0
    } else {
        1 + word_len(s.skip(1))
    }
}

pub proof fn lemma_word_len_bound(s: Seq<char>)
    ensures
        word_len(s) <= s.len(),
    decreases s.len(),
{
    if s.len() > 0 && !is_white(s[0]) {
        lemma_word_len_bound(s.skip(1));
    }
}

/// The words of a text: the runs of characters that white space separates.
pub open spec fn words(s: Seq<char>) -> Seq<Seq<char>>
    decreases s.len(),
{
    if s.len() == 0 {
        Seq::empty()
    } else if is_white(s[0]) {
        words(s.skip(1))
    } else {
        proof {
            lemma_word_len_bound(s);
        }
        seq![s.take(word_len(s) as int)] + words(s.skip(word_len(s) as int))
    }
}

proof fn lemma_word_len(s: Seq<char>, i: int)
    requires
        0 <= i <= s.len(),
        forall|k: int| 0 <= k < i ==> !is_white(#[trigger] s[k]),
        i < s.len() ==> is_white(s[i]),
    ensures
        word_len(s) == i,
    decreases s.len(),
{
    if i > 0 {
        assert forall|k: int| 0 <= k < i - 1 implies !is_white(#[trigger] s.skip(1)[k]) by {
            assert(!is_white(s[k + 1]));
        }
        assert(!is_white(s[0]));
        lemma_word_len(s.skip(1), i - 1);
    }
}

pub fn word_chars(s: &[char]) -> (r: Vec<Vec<char>>)
    ensures
        views(r@) == words(s@),
{
    let mut r: Vec<Vec<char>> = Vec::new();
    let mut from: usize = 0;
    assert(s@.skip(0) =~= s@);
    assert(views(r@) + words(s@) =~= words(s@));
    while from < s.len()
        invariant
            from <= s.len(),
            views(r@) + words(s@.skip(from as int)) == words(s@),
        decreases s.len() - from,
    {
        let ghost rest = s@.skip(from as int);
        if is_white_char(s[from]) {
            assert(rest.skip(1) =~= s@.skip(from + 1));
            from += 1;
        } else {
            let ghost before = r@;
            let mut at: usize = from;
            while at < s.len() && !is_white_char(s[at])
                invariant
                    from <= at <= s.len(),
                    forall|k: int| from <= k < at ==> !is_white(#[trigger] s@[k]),
                decreases s.len() - at,
            {
                at += 1;
            }
            proof {
                assert(!is_white(s@[from as int]));
                lemma_word_len(rest, at - from);
            }
            let word = copy_range(s, from, at);
            r.push(word);
            assert(word@ =~= rest.take(at - from));
            assert(views(r@) =~= views(before).push(word@));
            assert(rest.skip(at - from) =~= s@.skip(at as int));
            assert(views(r@) + words(s@.skip(at as int)) =~= views(before) + (seq![
                rest.take(at - from),
            ] + words(rest.skip(at - from))));
            from = at;
        }
    }
    assert(words(s@.skip(from as int)) =~= Seq::empty());
    assert(views(r@) + Seq::<Seq<char>>::empty() =~= views(r@));
    r
}

/// Whether `part` stands in `s`.
pub open spec fn holds(s: Seq<char>, part: Seq<char>) -> bool {
    exists|i: int| #[trigger] holds_at(s, part, i)
}

/// Whether `part` stands in `s` from the given place on.
pub open spec fn holds_at(s: Seq<char>, part: Seq<char>, i: int) -> bool {
    0 <= i <= s.len() - part.len() && s.subrange(i, i + part.len()) == part
}

pub fn starts_at(s: &[char], part: &[char], from: usize) -> (r: bool)
    requires
        from <= s.len(),
    ensures
        r == holds_at(s@, part@, from as int),
{
    if s.len() - from < part.len() {
        return false;
    }
    let mut i: usize = 0;
    while i < part.len()
        invariant
            i <= part.len() <= s.len() - from,
            forall|k: int| 0 <= k < i ==> s@[from + k] == part@[k],
        decreases part.len() - i,
    {
        if s[from + i] != part[i] {
            assert(s@.subrange(from as int, from + part@.len())[i as int] != part@[i as int]);
            return false;
        }
        i += 1;
    }
    assert(s@.subrange(from as int, from + part@.len()) =~= part@);
    true
}

pub fn holds_chars(s: &[char], part: &[char]) -> (r: bool)
    ensures
        r == holds(s@, part@),
{
    let mut i: usize = 0;
    while i <= s.len()
        invariant
            i <= s.len() + 1,
            forall|k: int| 0 <= k < i ==> !holds_at(s@, part@, k),
        decreases s.len() + 1 - i,
    {
        if starts_at(s, part, i) {
            return true;
        }
        if i == s.len() {
            return false;
        }
        i += 1;
    }
    false
}

/// Whether the text holds the part.
pub fn holds_text(s: &str, part: &str) -> (r: bool)
    ensures
        r == holds(s@, part@),
{
    let cs = chars_of(s);
    let ps = chars_of(part);
    holds_chars(cs.as_slice(), ps.as_slice())
}

/// What follows the prefix, where the text starts with it.
pub open spec fn after_prefix(s: Seq<char>, prefix: Seq<char>) -> Option<Seq<char>> {
    if holds_at(s, prefix, 0) {
        Some(s.skip(prefix.len() as int))
    } else {
        None
    }
}

pub fn strip_prefix_chars<'a>(s: &'a [char], prefix: &str) -> (r: Option<&'a [char]>)
    ensures
        match r {
            Some(rest) => after_prefix(s@, prefix@) == Some(rest@),
            None => after_prefix(s@, prefix@) is None,
        },
{
    let ps = chars_of(prefix);
    if starts_at(s, ps.as_slice(), 0) {
        Some(slice_subrange(s, ps.len(), s.len()))
    } else {
        None
    }
}

/// Whether `a` comes before `b` in the order of texts, which compares the first
/// characters that differ.
pub open spec fn text_less(a: Seq<char>, b: Seq<char>) -> bool
    decreases a.len(),
{
    if b.len() == 0 {
        false
    } else if a.len() == 0 {
        true
    } else if a[0] != b[0] {
        a[0] < b[0]
    } else {
        text_less(a.skip(1), b.skip(1))
    }
}

/// Of two different texts exactly one comes before the other.
pub proof fn text_order_is_total(a: Seq<char>, b: Seq<char>)
    ensures
        a == b ==> !text_less(a, b),
        a != b ==> text_less(a, b) != text_less(b, a),
    decreases a.len(),
{
    if a.len() > 0 && b.len() > 0 && a[0] == b[0] {
        text_order_is_total(a.skip(1), b.skip(1));
        if a.skip(1) == b.skip(1) {
            assert(a =~= seq![a[0]] + a.skip(1));
            assert(b =~= seq![b[0]] + b.skip(1));
        }
    } else if a.len() == 0 && b.len() == 0 {
        assert(a =~= b);
    }
}

/// The order of texts is transitive.
pub proof fn text_order_is_transitive(a: Seq<char>, b: Seq<char>, c: Seq<char>)
    requires
        text_less(a, b),
        text_less(b, c),
    ensures
        text_less(a, c),
    decreases a.len(),
{
    if a.len() > 0 && a[0] == b[0] && b[0] == c[0] {
        text_order_is_transitive(a.skip(1), b.skip(1), c.skip(1));
    }
}

/// Whether `a` comes before `b` in the order of texts.
pub fn text_before(a: &str, b: &str) -> (r: bool)
    ensures
        r == text_less(a@, b@),
{
    let x = chars_of(a);
    let y = chars_of(b);
    let mut i: usize = 0;
    assert(x@.skip(0) =~= x@);
    assert(y@.skip(0) =~= y@);
    while i < x.len() && i < y.len()
        invariant
            i <= x.len(),
            i <= y.len(),
            x@ == a@,
            y@ == b@,
            text_less(x@, y@) == text_less(x@.skip(i as int), y@.skip(i as int)),
        decreases x.len() - i,
    {
        let cx: char = x[i];
        let cy: char = y[i];
        if cx != cy {
            assert(x@.skip(i as int)[0] == cx && y@.skip(i as int)[0] == cy);
            return cx < cy;
        }
        assert(x@.skip(i as int).skip(1) =~= x@.skip(i + 1));
        assert(y@.skip(i as int).skip(1) =~= y@.skip(i + 1));
        i += 1;
    }
    i < y.len()
}

/// The name of what `str::to_lowercase` gives for a text.
pub uninterp spec fn lowercase(s: Seq<char>) -> Seq<char>;

/// `str::to_lowercase` gives the lower-case form of a text, which depends on
/// the text alone.
#[verifier::external_body]
pub(crate) fn lowercase_text(s: &str) -> (r: String)
    ensures
        r@ == lowercase(s@),
{
    s.to_lowercase()
}

/// The name of what `str::to_uppercase` gives for a text.
pub uninterp spec fn uppercase(s: Seq<char>) -> Seq<char>;

/// `str::to_uppercase` gives the upper-case form of a text, which depends on
/// the text alone.
#[verifier::external_body]
pub(crate) fn uppercase_text(s: &str) -> (r: String)
    ensures
        r@ == uppercase(s@),
{
    s.to_uppercase()
}

/// The name of what `String::from_utf8_lossy` makes of bytes.
pub uninterp spec fn lossy_text(bytes: Seq<u8>) -> Seq<char>;

/// `String::from_utf8_lossy` reads bytes as UTF-8 and puts a replacement
/// character for what is none; the text depends on the bytes alone, and bytes
/// that are UTF-8 throughout give the text that they encode.
#[verifier::external_body]
pub(crate) fn text_from_bytes(bytes: &[u8]) -> (r: String)
    ensures
        r@ == lossy_text(bytes@),
        valid_utf8(bytes@) ==> r@ == decode_utf8(bytes@),
{
    String::from_utf8_lossy(bytes).into_owned()
}

/// The pieces in order, with the separator between them.
pub open spec fn join(pieces: Seq<Seq<char>>, separator: Seq<char>) -> Seq<char>
    decreases pieces.len(),
{
    if pieces.len() == 0 {
        Seq::empty()
    } else if pieces.len() == 1 {
        pieces[0]
    } else {
        join(pieces.drop_last(), separator) + separator + pieces.last()
    }
}

pub fn join_chars(pieces: &[Vec<char>], separator: &str) -> (r: Vec<char>)
    ensures
        r@ == join(views(pieces@), separator@),
{
    let sep = chars_of(separator);
    let mut r: Vec<char> = Vec::new();
    let mut i: usize = 0;
    assert(views(pieces@).take(0) =~= Seq::empty());
    while i < pieces.len()
        invariant
            i <= pieces.len(),
            sep@ == separator@,
            r@ == join(views(pieces@).take(i as int), separator@),
        decreases pieces.len() - i,
    {
        let ghost upto = views(pieces@).take(i + 1);
        assert(upto.drop_last() =~= views(pieces@).take(i as int));
        assert(upto.last() == pieces@[i as int]@);
        if i > 0 {
            push_all(&mut r, sep.as_slice());
        }
        push_all(&mut r, pieces[i].as_slice());
        proof {
            if i == 0 {
                assert(r@ =~= pieces@[0]@);
            }
        }
        i += 1;
    }
    assert(views(pieces@).take(i as int) =~= views(pieces@));
    r
}

/// Puts the characters at the end of the list.
pub fn push_all(r: &mut Vec<char>, cs: &[char])
    ensures
        final(r)@ == old(r)@ + cs@,
{
    let mut i: usize = 0;
    assert(r@ =~= old(r)@ + cs@.take(0));
    while i < cs.len()
        invariant
            i <= cs.len(),
            r@ == old(r)@ + cs@.take(i as int),
        decreases cs.len() - i,
    {
        r.push(cs[i]);
        assert(old(r)@ + cs@.take(i + 1) =~= (old(r)@ + cs@.take(i as int)).push(cs@[i as int]));
        i += 1;
    }
    assert(cs@.take(i as int) =~= cs@);
}

/// A text without white space at its ends.
pub open spec fn is_trimmed(s: Seq<char>) -> bool {
    s.len() > 0 ==> !is_white(s[0]) && !is_white(s.last())
}

proof fn lemma_trim_start(s: Seq<char>)
    ensures
        trim_start(s).len() > 0 ==> !is_white(trim_start(s)[0]),
    decreases s.len(),
{
    if s.len() > 0 && is_white(s[0]) {
        lemma_trim_start(s.skip(1));
    }
}

proof fn lemma_trim_end(s: Seq<char>)
    ensures
        trim_end(s).len() > 0 ==> !is_white(trim_end(s).last()) && trim_end(s)[0] == s[0],
    decreases s.len(),
{
    if s.len() > 0 && is_white(s.last()) {
        lemma_trim_end(s.drop_last());
    }
}

/// Trimming leaves no white space at the ends, and changes no text that has
/// none there.
pub proof fn trimming_is_idempotent(s: Seq<char>)
    ensures
        is_trimmed(trim(s)),
        is_trimmed(s) ==> trim(s) == s,
        trim(trim(s)) == trim(s),
{
    lemma_trim_start(s);
    lemma_trim_end(trim_start(s));
}

/// The first piece of a text reaches to the first separator, and the other pieces are
/// those of what follows it. A text without the separator is its only piece.
pub proof fn splitting_gives_the_pieces_back(a: Seq<char>, rest: Seq<char>, c: char)
    requires
        !a.contains(c),
    ensures
        split(a, c) == seq![a],
        split(a + seq![c] + rest, c) == seq![a] + split(rest, c),
{
    let s = a + seq![c] + rest;
    assert forall|k: int| 0 <= k < a.len() implies a[k] != c by {}
    lemma_find_char(a, c, a.len() as int);
    lemma_find_char(s, c, a.len() as int);
    assert(s.take(a.len() as int) =~= a);
    assert(s.skip(a.len() as int + 1) =~= rest);
}

/// Where more than one piece is asked for, the first one reaches to the first
/// separator; the last one asked for is all that is left.
pub proof fn splitting_into_few_gives_the_pieces_back(
    a: Seq<char>,
    rest: Seq<char>,
    n: nat,
    c: char,
)
    requires
        !a.contains(c),
    ensures
        n > 0 ==> splitn(a, n, c) == seq![a],
        splitn(rest, 1, c) == seq![rest],
        n > 1 ==> splitn(a + seq![c] + rest, n, c) == seq![a] + splitn(rest, (n - 1) as nat, c),
{
    let s = a + seq![c] + rest;
    assert forall|k: int| 0 <= k < a.len() implies a[k] != c by {}
    lemma_find_char(a, c, a.len() as int);
    lemma_find_char(s, c, a.len() as int);
    assert(s.take(a.len() as int) =~= a);
    assert(s.skip(a.len() as int + 1) =~= rest);
}

/// The pieces of a text, joined by the separator, are the text.
pub proof fn joining_the_pieces_gives_the_text(s: Seq<char>, c: char)
    ensures
        split(s, c).len() > 0,
        join(split(s, c), seq![c]) == s,
        forall|i: int| 0 <= i < split(s, c).len() ==> !(#[trigger] split(s, c)[i]).contains(c),
    decreases s.len(),
{
    let i = find_char(s, c) as int;
    lemma_before_the_found(s, c);
    if i < s.len() {
        let rest = s.skip(i + 1);
        joining_the_pieces_gives_the_text(rest, c);
        lemma_join_from_the_front(s.take(i), split(rest, c), seq![c]);
        assert(s.take(i) + seq![c] + rest =~= s);
        assert forall|k: int| 0 <= k < split(s, c).len() implies !(#[trigger] split(
            s,
            c,
        )[k]).contains(c) by {
            if k > 0 {
                assert(split(s, c)[k] == split(rest, c)[k - 1]);
            }
        }
    } else {
        assert(s.take(i) =~= s);
    }
}

proof fn lemma_before_the_found(s: Seq<char>, c: char)
    ensures
        find_char(s, c) <= s.len(),
        find_char(s, c) < s.len() ==> s[find_char(s, c) as int] == c,
        !s.take(find_char(s, c) as int).contains(c),
    decreases s.len(),
{
    if s.len() > 0 && s[0] != c {
        let rest = s.skip(1);
        let i = find_char(rest, c) as int;
        lemma_before_the_found(rest, c);
        assert forall|k: int| 0 <= k < i + 1 implies #[trigger] s.take(i + 1)[k] != c by {
            if k > 0 {
                assert(s.take(i + 1)[k] == rest.take(i)[k - 1]);
            }
        }
    }
}

proof fn lemma_join_from_the_front(a: Seq<char>, pieces: Seq<Seq<char>>, separator: Seq<char>)
    requires
        pieces.len() > 0,
    ensures
        join(seq![a] + pieces, separator) == a + separator + join(pieces, separator),
    decreases pieces.len(),
{
    let all = seq![a] + pieces;
    assert(all.drop_last() =~= seq![a] + pieces.drop_last());
    assert(all.last() == pieces.last());
    if pieces.len() == 1 {
        assert(all.drop_last() =~= seq![a]);
        assert(join(seq![a], separator) == a);
        assert(join(all, separator) =~= a + separator + pieces[0]);
    } else {
        lemma_join_from_the_front(a, pieces.drop_last(), separator);
        assert(join(all, separator) =~= a + separator + join(pieces, separator));
    }
}

/// A line ends at the first line feed, and what follows it are the other lines. A
/// carriage return before the line feed belongs to neither.
pub proof fn a_line_ends_at_the_line_feed(a: Seq<char>, rest: Seq<char>)
    requires
        !a.contains('\n'),
    ensures
        a.len() > 0 ==> lines(a) == seq![a],
        (a.len() == 0 || a.last() != '\r') ==> lines(a + seq!['\n'] + rest) == seq![a] + lines(
            rest,
        ),
        lines(a + seq!['\r', '\n'] + rest) == seq![a] + lines(rest),
        lines(Seq::empty()) == Seq::<Seq<char>>::empty(),
{
    let s = a + seq!['\n'] + rest;
    let t = a + seq!['\r', '\n'] + rest;
    let n = a.len() as int;
    assert forall|k: int| 0 <= k < a.len() implies a[k] != '\n' by {}
    lemma_find_char(a, '\n', n);
    lemma_find_char(s, '\n', n);
    lemma_find_char(t, '\n', n + 1);
    assert(s.take(n) =~= a);
    assert(s.skip(n + 1) =~= rest);
    assert(t.take(n + 1) =~= a.push('\r'));
    assert(t.take(n + 1).drop_last() =~= a);
    assert(t.skip(n + 2) =~= rest);
}

/// A word ends at the first white space, and white space before a word counts for
/// nothing.
pub proof fn a_word_ends_at_the_white_space(a: Seq<char>, space: char, rest: Seq<char>)
    requires
        a.len() > 0,
        forall|i: int| 0 <= i < a.len() ==> !is_white(#[trigger] a[i]),
        is_white(space),
    ensures
        words(a) == seq![a],
        words(a + seq![space] + rest) == seq![a] + words(rest),
        words(seq![space] + rest) == words(rest),
{
    let s = a + seq![space] + rest;
    let n = a.len() as int;
    assert forall|k: int| 0 <= k < n implies !is_white(#[trigger] s[k]) by {
        assert(s[k] == a[k]);
    }
    assert(!is_white(a[0]));
    assert(!is_white(s[0]));
    lemma_word_len(a, n);
    lemma_word_len(s, n);
    assert(s.take(n) =~= a);
    assert(a.take(n) =~= a);
    assert(a.skip(n) =~= Seq::empty());
    assert(words(a.skip(n)) =~= Seq::empty());
    assert(s.skip(n) =~= seq![space] + rest);
    let t = seq![space] + rest;
    assert(t[0] == space);
    assert(t.skip(1) =~= rest);
    assert(words(t) == words(rest));
    assert(words(s) == seq![s.take(n)] + words(s.skip(n)));
}

/// What is left after a prefix is what stood behind it, and a text that gives something
/// after a prefix is the prefix and that.
pub proof fn a_prefix_comes_off(prefix: Seq<char>, rest: Seq<char>, s: Seq<char>)
    ensures
        after_prefix(prefix + rest, prefix) == Some(rest),
        after_prefix(s, prefix) matches Some(left) ==> s == prefix + left,
        after_prefix(s, prefix) is None ==> forall|left: Seq<char>| s != #[trigger] (prefix + left),
{
    let whole = prefix + rest;
    assert(whole.subrange(0, prefix.len() as int) =~= prefix);
    assert(whole.skip(prefix.len() as int) =~= rest);
    if let Some(left) = after_prefix(s, prefix) {
        assert(s =~= s.subrange(0, prefix.len() as int) + left);
    } else {
        assert forall|left: Seq<char>| s != #[trigger] (prefix + left) by {
            assert((prefix + left).subrange(0, prefix.len() as int) =~= prefix);
        }
    }
}

/// Trimming takes white space off the ends, whatever it is and however much, and
/// nothing else.
pub proof fn trimming_takes_the_white_space_off(
    before: Seq<char>,
    s: Seq<char>,
    after: Seq<char>,
)
    requires
        forall|i: int| 0 <= i < before.len() ==> is_white(#[trigger] before[i]),
        forall|i: int| 0 <= i < after.len() ==> is_white(#[trigger] after[i]),
        is_trimmed(s),
    ensures
        trim(before + s + after) == s,
    decreases before.len() + after.len(),
{
    let whole = before + s + after;
    if before.len() > 0 {
        assert(whole[0] == before[0]);
        assert(whole.skip(1) =~= before.skip(1) + s + after);
        assert forall|i: int| 0 <= i < before.skip(1).len() implies is_white(
            #[trigger] before.skip(1)[i],
        ) by {
            assert(before.skip(1)[i] == before[i + 1]);
        }
        trimming_takes_the_white_space_off(before.skip(1), s, after);
    } else if after.len() > 0 {
        assert(whole =~= s + after);
        if s.len() > 0 {
            assert(whole[0] == s[0]);
            assert(trim_start(whole) == whole);
            assert(whole.last() == after[after.len() - 1]);
            assert(whole.drop_last() =~= before + s + after.drop_last());
            assert(whole.drop_last()[0] == s[0]);
            assert(trim_start(whole.drop_last()) == whole.drop_last());
            assert forall|i: int| 0 <= i < after.drop_last().len() implies is_white(
                #[trigger] after.drop_last()[i],
            ) by {
                assert(after.drop_last()[i] == after[i]);
            }
            trimming_takes_the_white_space_off(before, s, after.drop_last());
        } else {
            assert(whole =~= after);
            assert(is_white(after[0]));
            assert(whole.skip(1) =~= before + s + after.skip(1));
            assert forall|i: int| 0 <= i < after.skip(1).len() implies is_white(
                #[trigger] after.skip(1)[i],
            ) by {
                assert(after.skip(1)[i] == after[i + 1]);
            }
            trimming_takes_the_white_space_off(before, s, after.skip(1));
        }
    } else {
        assert(whole =~= s);
        trimming_is_idempotent(s);
    }
}

/// Of the order of texts: an initial part of a text comes before it, and of two texts
/// that differ after a common part, the one with the lower character there does.
pub proof fn texts_are_ordered_by_the_first_difference(
    common: Seq<char>,
    a: char,
    x: Seq<char>,
    b: char,
    y: Seq<char>,
)
    requires
        a < b,
    ensures
        text_less(common, common + seq![a] + x),
        text_less(common + seq![a] + x, common + seq![b] + y),
    decreases common.len(),
{
    let l = common + seq![a] + x;
    let r = common + seq![b] + y;
    if common.len() > 0 {
        texts_are_ordered_by_the_first_difference(common.skip(1), a, x, b, y);
        assert(l.skip(1) =~= common.skip(1) + seq![a] + x);
        assert(r.skip(1) =~= common.skip(1) + seq![b] + y);
    }
}

/// A text between two others stands in the whole.
pub proof fn a_part_stands_in_the_whole(before: Seq<char>, part: Seq<char>, after: Seq<char>)
    ensures
        holds(before + part + after, part),
{
    let whole = before + part + after;
    let i = before.len() as int;
    assert(whole.subrange(i, i + part.len()) =~= part);
    assert(holds_at(whole, part, i));
}

} // verus!
