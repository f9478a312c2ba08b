//! What the window shows: the rows, texts and choices of its lists and panels.
pub mod connections;
pub mod history_list;
pub mod monitoring;
pub mod pane_plan;
pub mod ports;
pub mod processes;
pub mod sftp_panel;
pub mod sidebar;
pub mod tab_bar;
pub mod window;

use vstd::prelude::*;

use crate::text::{holds, holds_text, lowercase, lowercase_text, trim, trim_text};

verus! {

/// The places below `n` with a property, in ascending order.
pub open spec fn places_where(n: nat, wanted: spec_fn(int) -> bool) -> Seq<usize>
    decreases n,
{
    if n == 0 {
        Seq::empty()
    } else {
        let before = places_where((n - 1) as nat, wanted);
        if wanted(n - 1) {
            before.push((n - 1) as usize)
        } else {
            before
        }
    }
}

/// The places with a property are those that it names, each once and in order.
pub proof fn places_are_those_wanted(n: nat, wanted: spec_fn(int) -> bool)
    requires
        n <= usize::MAX,
    ensures
        forall|k: int|
            0 <= k < places_where(n, wanted).len() ==> (#[trigger] places_where(n, wanted)[k]) < n
                && wanted(places_where(n, wanted)[k] as int),
        forall|i: int|
            0 <= i < n && #[trigger] wanted(i) ==> places_where(n, wanted).contains(i as usize),
        forall|j: int, k: int|
            0 <= j < k < places_where(n, wanted).len() ==> #[trigger] places_where(n, wanted)[j]
                < #[trigger] places_where(n, wanted)[k],
    decreases n,
{
    if n > 0 {
        let m = (n - 1) as nat;
        places_are_those_wanted(m, wanted);
        let before = places_where(m, wanted);
        let after = places_where(n, wanted);
        assert forall|i: int| 0 <= i < n && #[trigger] wanted(i) implies after.contains(
            i as usize,
        ) by {
            if i < m {
                assert(before.contains(i as usize));
                let k = choose|k: int| 0 <= k < before.len() && before[k] == i as usize;
                assert(after[k] == i as usize);
            } else {
                assert(after[after.len() - 1] == i as usize);
            }
        }
    }
}

/// What a filter field asks for: its text without white space around it, in lower
/// case.
pub open spec fn filter_in(field: Seq<char>) -> Seq<char> {
    lowercase(trim(field))
}

/// What a filter field asks for.
pub fn filter_of(field: &str) -> (r: String)
    ensures
        r@ == filter_in(field@),
{
    let trimmed = trim_text(field);
    lowercase_text(trimmed.as_str())
}

/// Whether a line in lower case passes a filter.
pub open spec fn passes(lowered: Seq<char>, filter: Seq<char>) -> bool {
    filter.len() == 0 || holds(lowered, filter)
}

/// Whether a line, given in lower case, passes a filter.
pub fn line_passes(lowered: &str, filter: &str) -> (r: bool)
    ensures
        r == passes(lowered@, filter@),
{
    filter.is_empty() || holds_text(lowered, filter)
}

/// White space around what is typed into a filter counts for nothing; without a filter
/// everything passes, and a line passes where the filter stands anywhere in it.
pub proof fn a_filter_is_looked_for_anywhere(
    before: Seq<char>,
    part: Seq<char>,
    after: Seq<char>,
    front: Seq<char>,
    back: Seq<char>,
)
    requires
        forall|i: int| 0 <= i < front.len() ==> crate::text::is_white(#[trigger] front[i]),
        forall|i: int| 0 <= i < back.len() ==> crate::text::is_white(#[trigger] back[i]),
        crate::text::is_trimmed(part),
    ensures
        filter_in(front + part + back) == filter_in(part),
        passes(before + part + after, part),
        passes(before, Seq::empty()),
        (part.len() > 0 && !crate::text::holds(before, part)) ==> !passes(before, part),
{
    crate::text::trimming_takes_the_white_space_off(front, part, back);
    crate::text::trimming_is_idempotent(part);
    crate::text::a_part_stands_in_the_whole(before, part, after);
}

} // verus!
