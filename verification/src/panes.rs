//! The panes of a group of tabs, as a tree of splits.
use vstd::prelude::*;

use crate::number::Float32;
use crate::saved::{PaneTree, SavedPaneLayout};
use crate::text::{same_text, texts};

verus! {

/// One pane with its tab, or panes below each other (`Horizontal`) or beside
/// each other (`Vertical`) with the share of the first.
#[derive(Debug)]
pub enum PaneLayout {
    Single(String),
    Horizontal(Vec<PaneLayout>, Float32),
    Vertical(Vec<PaneLayout>, Float32),
}

impl PaneLayout {
    /// The arrangement of the panes.
    pub open spec fn tree(self) -> PaneTree
        decreases self,
    {
        match self {
            PaneLayout::Single(tab) => PaneTree::Pane { tab: tab@ },
            PaneLayout::Horizontal(children, ratio) => PaneTree::Split {
                beside: false,
                parts: Seq::new(
                    children@.len(),
                    |i: int|
                        if 0 <= i < children@.len() {
                            children@[i].tree()
                        } else {
                            arbitrary()
                        },
                ),
                ratio,
            },
            PaneLayout::Vertical(children, ratio) => PaneTree::Split {
                beside: true,
                parts: Seq::new(
                    children@.len(),
                    |i: int|
                        if 0 <= i < children@.len() {
                            children@[i].tree()
                        } else {
                            arbitrary()
                        },
                ),
                ratio,
            },
        }
    }
}

/// The arrangements of a list of layouts.
pub open spec fn trees(layouts: Seq<PaneLayout>) -> Seq<PaneTree> {
    layouts.map_values(|l: PaneLayout| l.tree())
}

/// The tabs of an arrangement, in the order of their panes.
pub open spec fn pane_tabs(tree: PaneTree) -> Seq<Seq<char>>
    decreases tree,
{
    match tree {
        PaneTree::Pane { tab } => seq![tab],
        PaneTree::Split { beside, parts, ratio } => part_tabs(parts),
    }
}

pub open spec fn part_tabs(parts: Seq<PaneTree>) -> Seq<Seq<char>>
    decreases parts,
{
    if parts.len() == 0 {
        Seq::empty()
    } else {
        part_tabs(parts.drop_last()) + pane_tabs(parts.last())
    }
}

/// What stands at the end of a path: at each split the path names the part to go
/// into.
pub open spec fn node_at(tree: PaneTree, path: Seq<usize>) -> Option<PaneTree>
    decreases path.len(),
{
    if path.len() == 0 {
        Some(tree)
    } else {
        match tree {
            PaneTree::Pane { tab } => None,
            PaneTree::Split { beside, parts, ratio } => if path[0] < parts.len() {
                node_at(parts[path[0] as int], path.skip(1))
            } else {
                None
            },
        }
    }
}

/// The tab of the pane to which a path leads.
pub open spec fn pane_at(tree: PaneTree, path: Seq<usize>) -> Option<Seq<char>> {
    match node_at(tree, path) {
        Some(PaneTree::Pane { tab }) => Some(tab),
        _ => None,
    }
}

/// Whether every split has a part.
pub open spec fn solid(tree: PaneTree) -> bool
    decreases tree,
{
    match tree {
        PaneTree::Pane { tab } => true,
        PaneTree::Split { beside, parts, ratio } => parts.len() > 0 && all_solid(parts),
    }
}

pub open spec fn all_solid(parts: Seq<PaneTree>) -> bool
    decreases parts,
{
    parts.len() == 0 || (all_solid(parts.drop_last()) && solid(parts.last()))
}

pub proof fn lemma_part_solid(parts: Seq<PaneTree>, i: int)
    requires
        all_solid(parts),
        0 <= i < parts.len(),
    ensures
        solid(parts[i]),
    decreases parts.len(),
{
    if i < parts.len() - 1 {
        lemma_part_solid(parts.drop_last(), i);
    }
}

proof fn lemma_part_tabs_take(parts: Seq<PaneTree>, i: int)
    requires
        0 <= i < parts.len(),
    ensures
        part_tabs(parts.take(i + 1)) == part_tabs(parts.take(i)) + pane_tabs(parts[i]),
{
    assert(parts.take(i + 1).drop_last() =~= parts.take(i));
    assert(parts.take(i + 1).last() == parts[i]);
}

proof fn lemma_horizontal(children: Vec<PaneLayout>, ratio: Float32)
    ensures
        PaneLayout::Horizontal(children, ratio).tree() == (PaneTree::Split {
            beside: false,
            parts: trees(children@),
            ratio,
        }),
{
    assert(PaneLayout::Horizontal(children, ratio).tree()->parts =~= trees(children@));
}

proof fn lemma_vertical(children: Vec<PaneLayout>, ratio: Float32)
    ensures
        PaneLayout::Vertical(children, ratio).tree() == (PaneTree::Split {
            beside: true,
            parts: trees(children@),
            ratio,
        }),
{
    assert(PaneLayout::Vertical(children, ratio).tree()->parts =~= trees(children@));
}

fn collect_all(layouts: &Vec<PaneLayout>, ids: &mut Vec<String>)
    ensures
        texts(final(ids)@) == texts(old(ids)@) + part_tabs(trees(layouts@)),
    decreases layouts@, 1int,
{
    let mut i: usize = 0;
    let ghost parts = trees(layouts@);
    assert(texts(ids@) =~= texts(old(ids)@) + part_tabs(parts.take(0)));
    while i < layouts.len()
        invariant
            i <= layouts.len(),
            parts == trees(layouts@),
            texts(ids@) == texts(old(ids)@) + part_tabs(parts.take(i as int)),
        decreases layouts.len() - i,
    {
        let ghost before = texts(ids@);
        collect_tabs(&layouts[i], ids);
        proof {
            lemma_part_tabs_take(parts, i as int);
            assert(texts(ids@) =~= texts(old(ids)@) + part_tabs(parts.take(i + 1)));
        }
        i += 1;
    }
    assert(parts.take(i as int) =~= parts);
}

fn collect_tabs(layout: &PaneLayout, ids: &mut Vec<String>)
    ensures
        texts(final(ids)@) == texts(old(ids)@) + pane_tabs(layout.tree()),
    decreases layout, 0int,
{
    match layout {
        PaneLayout::Single(tab) => {
            ids.push(tab.clone());
            assert(texts(ids@) =~= texts(old(ids)@) + seq![tab@]);
        },
        PaneLayout::Horizontal(children, ratio) => {
            proof {
                lemma_horizontal(*children, *ratio);
            }
            collect_all(children, ids);
        },
        PaneLayout::Vertical(children, ratio) => {
            proof {
                lemma_vertical(*children, *ratio);
            }
            collect_all(children, ids);
        },
    }
}

impl PaneLayout {
    /// The tabs of the panes, in their order.
    pub fn tab_ids(&self) -> (r: Vec<String>)
        ensures
            texts(r@) == pane_tabs(self.tree()),
    {
        let mut ids: Vec<String> = Vec::new();
        assert(texts(ids@) =~= Seq::empty());
        collect_tabs(self, &mut ids);
        assert(texts(ids@) =~= pane_tabs(self.tree()));
        ids
    }

    /// Whether one of the panes shows the tab.
    pub fn contains(&self, tab_id: &str) -> (r: bool)
        ensures
            r == pane_tabs(self.tree()).contains(tab_id@),
    {
        let ids = self.tab_ids();
        holds_id(&ids, tab_id)
    }

    /// The number of panes.
    pub fn total_panes(&self) -> (r: usize)
        ensures
            r == pane_tabs(self.tree()).len(),
    {
        let ids = self.tab_ids();
        assert(texts(ids@).len() == ids@.len());
        ids.len()
    }

    /// The layout to which the path leads.
    fn layout_at(&self, path: &[usize]) -> (r: Option<&PaneLayout>)
        ensures
            match r {
                Some(layout) => node_at(self.tree(), path@) == Some(layout.tree()),
                None => node_at(self.tree(), path@) is None,
            },
    {
        let mut layout: &PaneLayout = self;
        let mut i: usize = 0;
        assert(path@.skip(0) =~= path@);
        while i < path.len()
            invariant
                i <= path.len(),
                node_at(self.tree(), path@) == node_at(layout.tree(), path@.skip(i as int)),
            decreases path.len() - i,
        {
            assert(path@.skip(i as int)[0] == path@[i as int]);
            assert(path@.skip(i as int).skip(1) =~= path@.skip(i + 1));
            match layout {
                PaneLayout::Single(_) => {
                    return None;
                },
                PaneLayout::Horizontal(children, ratio) => {
                    proof {
                        lemma_horizontal(*children, *ratio);
                    }
                    if path[i] >= children.len() {
                        return None;
                    }
                    layout = &children[path[i]];
                },
                PaneLayout::Vertical(children, ratio) => {
                    proof {
                        lemma_vertical(*children, *ratio);
                    }
                    if path[i] >= children.len() {
                        return None;
                    }
                    layout = &children[path[i]];
                },
            }
            i += 1;
        }
        Some(layout)
    }

    /// The tab of the pane to which the path leads.
    pub fn focused_tab_id(&self, path: &[usize]) -> (r: Option<String>)
        ensures
            match r {
                Some(tab) => pane_at(self.tree(), path@) == Some(tab@),
                None => pane_at(self.tree(), path@) is None,
            },
    {
        match self.layout_at(path) {
            Some(PaneLayout::Single(tab)) => Some(tab.clone()),
            _ => None,
        }
    }

    /// Whether the path leads to panes that stand below each other.
    pub fn is_layout_horizontal_at(&self, path: &[usize]) -> (r: bool)
        ensures
            r == (node_at(self.tree(), path@) matches Some(
                PaneTree::Split { beside, .. },
            ) && !beside),
    {
        match self.layout_at(path) {
            Some(PaneLayout::Horizontal(_, _)) => true,
            _ => false,
        }
    }

    /// The share of the first part of the split to which the path leads.
    pub fn split_ratio_at(&self, path: &[usize]) -> (r: Option<Float32>)
        ensures
            r == match node_at(self.tree(), path@) {
                Some(PaneTree::Split { beside, parts, ratio }) => Some(ratio),
                _ => None,
            },
    {
        match self.layout_at(path) {
            Some(PaneLayout::Horizontal(_, ratio)) => Some(*ratio),
            Some(PaneLayout::Vertical(_, ratio)) => Some(*ratio),
            _ => None,
        }
    }
}

/// The arrangement with another one in place of what stands at the end of the
/// path. A path that leads nowhere changes nothing.
pub open spec fn replaced(tree: PaneTree, path: Seq<usize>, new: PaneTree) -> PaneTree
    decreases path.len(),
{
    if path.len() == 0 {
        new
    } else {
        match tree {
            PaneTree::Pane { tab } => tree,
            PaneTree::Split { beside, parts, ratio } => if path[0] < parts.len() {
                PaneTree::Split {
                    beside,
                    parts: parts.update(
                        path[0] as int,
                        replaced(parts[path[0] as int], path.skip(1), new),
                    ),
                    ratio,
                }
            } else {
                tree
            },
        }
    }
}

/// The arrangement with another share at the split to which the path leads.
pub open spec fn with_ratio(tree: PaneTree, path: Seq<usize>, share: Float32) -> PaneTree {
    match node_at(tree, path) {
        Some(PaneTree::Split { beside, parts, ratio }) => replaced(
            tree,
            path,
            PaneTree::Split { beside, parts, ratio: share },
        ),
        _ => tree,
    }
}

/// The bits of the least share of the first part, one tenth.
pub const LEAST_SHARE: u32 = 0x3DCC_CCCD;

/// The bits of the greatest share of the first part, nine tenths.
pub const GREATEST_SHARE: u32 = 0x3F66_6666;

/// The bits of the share of each part of a new split, one half.
pub const EVEN_SHARE: u32 = 0x3F00_0000;

fn replace_from(layout: &mut PaneLayout, path: &[usize], from: usize, new: PaneLayout)
    requires
        from <= path.len(),
    ensures
        final(layout).tree() == replaced(old(layout).tree(), path@.skip(from as int), new.tree()),
    decreases path.len() - from,
{
    if from == path.len() {
        *layout = new;
        return ;
    }
    let index: usize = path[from];
    assert(path@.skip(from as int)[0] == index);
    assert(path@.skip(from as int).skip(1) =~= path@.skip(from + 1));
    match layout {
        PaneLayout::Single(_) => {},
        PaneLayout::Horizontal(children, ratio) => {
            let ghost before = *children;
            proof {
                lemma_horizontal(*children, *ratio);
            }
            if index < children.len() {
                replace_from(&mut children[index], path, from + 1, new);
                proof {
                    lemma_horizontal(*children, *ratio);
                    assert(trees(children@) =~= trees(before@).update(
                        index as int,
                        children@[index as int].tree(),
                    ));
                }
            }
        },
        PaneLayout::Vertical(children, ratio) => {
            let ghost before = *children;
            proof {
                lemma_vertical(*children, *ratio);
            }
            if index < children.len() {
                replace_from(&mut children[index], path, from + 1, new);
                proof {
                    lemma_vertical(*children, *ratio);
                    assert(trees(children@) =~= trees(before@).update(
                        index as int,
                        children@[index as int].tree(),
                    ));
                }
            }
        },
    }
}

/// A share kept between the least and the greatest one.
pub open spec fn kept_share(share: Float32) -> Float32 {
    share.clamped(Float32 { bits: LEAST_SHARE }, Float32 { bits: GREATEST_SHARE })
}

fn adjust_from(layout: &mut PaneLayout, path: &[usize], from: usize, share: Float32)
    requires
        from <= path.len(),
    ensures
        final(layout).tree() == with_ratio(old(layout).tree(), path@.skip(from as int), share),
    decreases path.len() - from,
{
    proof {
        if from < path.len() {
            assert(path@.skip(from as int)[0] == path@[from as int]);
            assert(path@.skip(from as int).skip(1) =~= path@.skip(from + 1));
        }
    }
    match layout {
        PaneLayout::Single(_) => {},
        PaneLayout::Horizontal(children, ratio) => {
            let ghost before = *children;
            proof {
                lemma_horizontal(*children, *ratio);
            }
            if from == path.len() {
                *ratio = share;
            } else if path[from] < children.len() {
                adjust_from(&mut children[path[from]], path, from + 1, share);
            }
            proof {
                lemma_horizontal(*children, *ratio);
                if from < path.len() && path@[from as int] < children@.len() {
                    let index = path@[from as int] as int;
                    assert(trees(children@) =~= trees(before@).update(
                        index,
                        children@[index].tree(),
                    ));
                    assert(trees(before@).update(index, before@[index].tree()) =~= trees(before@));
                }
            }
        },
        PaneLayout::Vertical(children, ratio) => {
            let ghost before = *children;
            proof {
                lemma_vertical(*children, *ratio);
            }
            if from == path.len() {
                *ratio = share;
            } else if path[from] < children.len() {
                adjust_from(&mut children[path[from]], path, from + 1, share);
            }
            proof {
                lemma_vertical(*children, *ratio);
                if from < path.len() && path@[from as int] < children@.len() {
                    let index = path@[from as int] as int;
                    assert(trees(children@) =~= trees(before@).update(
                        index,
                        children@[index].tree(),
                    ));
                    assert(trees(before@).update(index, before@[index].tree()) =~= trees(before@));
                }
            }
        },
    }
}

impl PaneLayout {
    /// Puts another layout in place of what stands at the end of the path.
    pub fn replace_at(&mut self, path: &[usize], layout: PaneLayout)
        ensures
            final(self).tree() == replaced(old(self).tree(), path@, layout.tree()),
    {
        assert(path@.skip(0) =~= path@);
        replace_from(self, path, 0, layout);
    }

    /// Gives the split at the end of the path a new share, which `share` would
    /// be but for the limits.
    pub fn adjust_split_ratio(&mut self, path: &[usize], share: Float32)
        ensures
            final(self).tree() == with_ratio(old(self).tree(), path@, kept_share(share)),
    {
        assert(path@.skip(0) =~= path@);
        let kept = share.clamp(
            Float32 { bits: LEAST_SHARE },
            Float32 { bits: GREATEST_SHARE },
        );
        adjust_from(self, path, 0, kept);
    }
}

/// The path to the first pane.
pub open spec fn first_leaf(tree: PaneTree) -> Seq<usize>
    decreases tree,
{
    match tree {
        PaneTree::Pane { tab } => Seq::empty(),
        PaneTree::Split { beside, parts, ratio } => if parts.len() == 0 {
            Seq::empty()
        } else {
            seq![0usize] + first_leaf(parts[0])
        },
    }
}

/// The path to the first pane of the part at the index, or of the last part where
/// there are fewer.
pub open spec fn leaf_near(tree: PaneTree, index: nat) -> Seq<usize> {
    match tree {
        PaneTree::Pane { tab } => Seq::empty(),
        PaneTree::Split { beside, parts, ratio } => if parts.len() == 0 {
            Seq::empty()
        } else {
            let i = if index < parts.len() {
                index as int
            } else {
                parts.len() - 1
            };
            seq![i as usize] + first_leaf(parts[i])
        },
    }
}

/// A way to go from a pane.
#[derive(Clone, Copy, PartialEq, Eq, Structural, Debug)]
pub enum Direction {
    Left,
    Right,
    Up,
    Down,
}

impl Direction {
    /// Whether the way leads along panes that stand beside each other.
    pub open spec fn sideways(self) -> bool {
        self is Left || self is Right
    }

    /// Whether the way leads to the pane before.
    pub open spec fn back(self) -> bool {
        self is Left || self is Up
    }
}

/// The direction with the name.
pub open spec fn direction_named(name: Seq<char>) -> Option<Direction> {
    if name == "left"@ {
        Some(Direction::Left)
    } else if name == "right"@ {
        Some(Direction::Right)
    } else if name == "up"@ {
        Some(Direction::Up)
    } else if name == "down"@ {
        Some(Direction::Down)
    } else {
        None
    }
}

pub fn parse_direction(name: &str) -> (r: Option<Direction>)
    ensures
        r == direction_named(name@),
{
    if same_text(name, "left") {
        Some(Direction::Left)
    } else if same_text(name, "right") {
        Some(Direction::Right)
    } else if same_text(name, "up") {
        Some(Direction::Up)
    } else if same_text(name, "down") {
        Some(Direction::Down)
    } else {
        None
    }
}

/// An index as a signed number of 32 bits, of which the higher bits are left out.
pub open spec fn narrow_index(index: usize) -> int {
    let low = index as int % 0x1_0000_0000;
    if low < 0x8000_0000 {
        low
    } else {
        low - 0x1_0000_0000
    }
}

/// The index to which a direction leads from an index.
pub open spec fn index_beside(index: usize, direction: Direction) -> int {
    if direction.back() {
        narrow_index(index) - 1
    } else {
        narrow_index(index) + 1
    }
}

/// The part of a split that the direction leads to from the one at the index,
/// where the split runs that way and has such a part.
pub open spec fn next_part(beside: bool, count: nat, index: usize, direction: Direction) -> Option<
    int,
> {
    let next = index_beside(index, direction);
    if direction.sideways() == beside && 0 <= next < count {
        Some(next)
    } else {
        None
    }
}

/// The path from a pane in a direction: within the innermost split that runs that
/// way and has a part on that side.
pub open spec fn adjacent(tree: PaneTree, path: Seq<usize>, direction: Direction) -> Option<
    Seq<usize>,
>
    decreases path.len(),
{
    if path.len() == 0 {
        None
    } else {
        match tree {
            PaneTree::Pane { tab } => None,
            PaneTree::Split { beside, parts, ratio } => {
                let next = next_part(beside, parts.len(), path[0], direction);
                if path.len() == 1 {
                    match next {
                        Some(n) => Some(seq![n as usize] + first_leaf(parts[n])),
                        None => None,
                    }
                } else {
                    match adjacent(parts[path[0] as int], path.skip(1), direction) {
                        Some(inner) => Some(seq![path[0]] + inner),
                        None => match next {
                            Some(n) => Some(seq![n as usize] + leaf_near(parts[n], path[1] as nat)),
                            None => None,
                        },
                    }
                }
            },
        }
    }
}

/// Whether the first parts lead to a pane.
pub open spec fn leads_down(tree: PaneTree) -> bool
    decreases tree,
{
    match tree {
        PaneTree::Pane { tab } => true,
        PaneTree::Split { beside, parts, ratio } => parts.len() > 0 && leads_down(parts[0]),
    }
}

/// Whether the part at the index, or the last one, leads to a pane, where there is a
/// part.
pub open spec fn leads_near(tree: PaneTree, index: nat) -> bool {
    match tree {
        PaneTree::Pane { tab } => true,
        PaneTree::Split { beside, parts, ratio } => parts.len() == 0 || leads_down(
            parts[if index < parts.len() {
                index as int
            } else {
                parts.len() - 1
            }],
        ),
    }
}

/// Whether the way from the end of a path in a direction can be gone: each step of the
/// path but the last stays within the arrangement, and where a split is turned to, its
/// part on that side leads to a pane.
pub open spec fn can_go(tree: PaneTree, path: Seq<usize>, direction: Direction) -> bool
    decreases path.len(),
{
    path.len() == 0 || match tree {
        PaneTree::Pane { tab } => true,
        PaneTree::Split { beside, parts, ratio } => {
            let next = next_part(beside, parts.len(), path[0], direction);
            &&& path.len() > 1 ==> path[0] < parts.len() && can_go(
                parts[path[0] as int],
                path.skip(1),
                direction,
            )
            &&& (path.len() == 1 || adjacent(
                parts[path[0] as int],
                path.skip(1),
                direction,
            ) is None) && direction.sideways() == beside ==> {
                &&& i32::MIN <= index_beside(path[0], direction) <= i32::MAX
                &&& next matches Some(n) ==> if path.len() == 1 {
                    leads_down(parts[n])
                } else {
                    leads_near(parts[n], path[1] as nat)
                }
            }
        },
    }
}

proof fn lemma_solid_leads_down(tree: PaneTree)
    requires
        solid(tree),
    ensures
        leads_down(tree),
    decreases tree,
{
    if let PaneTree::Split { beside, parts, ratio } = tree {
        lemma_part_solid(parts, 0);
        lemma_solid_leads_down(parts[0]);
    }
}

/// Where every split has a part, any way can be gone from a pane.
pub proof fn a_solid_arrangement_can_be_walked(
    tree: PaneTree,
    path: Seq<usize>,
    direction: Direction,
)
    requires
        solid(tree),
        node_at(tree, path) is Some,
        forall|k: int| 0 <= k < path.len() ==> #[trigger] path[k] < i32::MAX,
    ensures
        can_go(tree, path, direction),
    decreases path.len(),
{
    if path.len() > 0 {
        let parts = tree->parts;
        let rest = path.skip(1);
        lemma_part_solid(parts, path[0] as int);
        assert forall|k: int| 0 <= k < rest.len() implies #[trigger] rest[k] < i32::MAX by {
            assert(rest[k] == path[k + 1]);
        }
        if path.len() > 1 {
            a_solid_arrangement_can_be_walked(parts[path[0] as int], rest, direction);
        }
        if let Some(n) = next_part(tree->beside, parts.len(), path[0], direction) {
            lemma_part_solid(parts, n);
            lemma_solid_leads_down(parts[n]);
            if path.len() > 1 {
                if let PaneTree::Split { beside: b, parts: inner, ratio: r } = parts[n] {
                    let i = if path[1] < inner.len() {
                        path[1] as int
                    } else {
                        inner.len() - 1
                    };
                    lemma_part_solid(inner, i);
                    lemma_solid_leads_down(inner[i]);
                }
            }
        }
    }
}

impl PaneLayout {
    /// The path to the first pane.
    pub fn first_leaf_path(&self) -> (r: Vec<usize>)
        requires
            leads_down(self.tree()),
        ensures
            r@ == first_leaf(self.tree()),
    {
        let mut layout: &PaneLayout = self;
        let mut path: Vec<usize> = Vec::new();
        assert(path@ + first_leaf(layout.tree()) =~= first_leaf(self.tree()));
        loop
            invariant
                leads_down(layout.tree()),
                path@ + first_leaf(layout.tree()) == first_leaf(self.tree()),
            decreases layout,
        {
            match layout {
                PaneLayout::Single(_) => {
                    assert(path@ + first_leaf(layout.tree()) =~= path@);
                    return path;
                },
                PaneLayout::Horizontal(children, ratio) => {
                    proof {
                        lemma_horizontal(*children, *ratio);
                        assert(trees(children@)[0] == children@[0].tree());
                    }
                    let ghost before = path@;
                    path.push(0);
                    layout = &children[0];
                    assert(path@ + first_leaf(layout.tree()) =~= before + (seq![0usize]
                        + first_leaf(layout.tree())));
                },
                PaneLayout::Vertical(children, ratio) => {
                    proof {
                        lemma_vertical(*children, *ratio);
                        assert(trees(children@)[0] == children@[0].tree());
                    }
                    let ghost before = path@;
                    path.push(0);
                    layout = &children[0];
                    assert(path@ + first_leaf(layout.tree()) =~= before + (seq![0usize]
                        + first_leaf(layout.tree())));
                },
            }
        }
    }

    /// The path to the first pane of the part at the index, or of the last part; empty
    /// where there is no part.
    pub fn leaf_at_index(&self, index: usize) -> (r: Vec<usize>)
        requires
            leads_near(self.tree(), index as nat),
        ensures
            r@ == leaf_near(self.tree(), index as nat),
    {
        match self {
            PaneLayout::Single(_) => Vec::new(),
            PaneLayout::Horizontal(children, ratio) => {
                proof {
                    lemma_horizontal(*children, *ratio);
                }
                if children.len() == 0 {
                    return Vec::new();
                }
                leaf_in(children, index)
            },
            PaneLayout::Vertical(children, ratio) => {
                proof {
                    lemma_vertical(*children, *ratio);
                }
                if children.len() == 0 {
                    return Vec::new();
                }
                leaf_in(children, index)
            },
        }
    }
}

fn leaf_in(children: &Vec<PaneLayout>, index: usize) -> (r: Vec<usize>)
    requires
        children@.len() > 0,
        leads_down(
            children@[if index < children@.len() {
                index as int
            } else {
                children@.len() - 1
            }].tree(),
        ),
    ensures
        ({
            let i = if index < children@.len() {
                index as int
            } else {
                children@.len() - 1
            };
            r@ == seq![i as usize] + first_leaf(children@[i].tree())
        }),
{
    let i: usize = if index < children.len() {
        index
    } else {
        children.len() - 1
    };
    let mut path = children[i].first_leaf_path();
    path.insert(0, i);
    assert(path@ =~= seq![i] + first_leaf(children@[i as int].tree()));
    path
}

fn next_index(beside: bool, count: usize, index: usize, direction: Direction) -> (r: Option<usize>)
    ensures
        match r {
            Some(n) => next_part(beside, count as nat, index, direction) == Some(n as int),
            None => next_part(beside, count as nat, index, direction) is None,
        },
{
    let sideways: bool = match direction {
        Direction::Left | Direction::Right => true,
        _ => false,
    };
    if sideways != beside {
        return None;
    }
    let low: u64 = index as u64 % 0x1_0000_0000;
    let narrow: i64 = if low < 0x8000_0000 {
        low as i64
    } else {
        low as i64 - 0x1_0000_0000
    };
    let next: i64 = match direction {
        Direction::Left | Direction::Up => narrow - 1,
        _ => narrow + 1,
    };
    if next >= 0 && (next as u64) < count as u64 {
        Some(next as usize)
    } else {
        None
    }
}

fn adjacent_from(
    layout: &PaneLayout,
    path: &[usize],
    from: usize,
    direction: Direction,
) -> (r: Option<Vec<usize>>)
    requires
        from <= path.len(),
        can_go(layout.tree(), path@.skip(from as int), direction),
    ensures
        match r {
            Some(p) => adjacent(layout.tree(), path@.skip(from as int), direction) == Some(p@),
            None => adjacent(layout.tree(), path@.skip(from as int), direction) is None,
        },
    decreases path.len() - from, 1int,
{
    if from == path.len() {
        return None;
    }
    match layout {
        PaneLayout::Single(_) => None,
        PaneLayout::Horizontal(children, ratio) => {
            proof {
                lemma_horizontal(*children, *ratio);
            }
            adjacent_in(false, children, *ratio, path, from, direction)
        },
        PaneLayout::Vertical(children, ratio) => {
            proof {
                lemma_vertical(*children, *ratio);
            }
            adjacent_in(true, children, *ratio, path, from, direction)
        },
    }
}

fn adjacent_in(
    beside: bool,
    children: &Vec<PaneLayout>,
    ratio: Float32,
    path: &[usize],
    from: usize,
    direction: Direction,
) -> (r: Option<Vec<usize>>)
    requires
        from < path.len(),
        can_go(
            PaneTree::Split { beside, parts: trees(children@), ratio },
            path@.skip(from as int),
            direction,
        ),
    ensures
        ({
            let tree = PaneTree::Split { beside, parts: trees(children@), ratio };
            match r {
                Some(p) => adjacent(tree, path@.skip(from as int), direction) == Some(p@),
                None => adjacent(tree, path@.skip(from as int), direction) is None,
            }
        }),
    decreases path.len() - from, 0int,
{
    let ghost parts = trees(children@);
    let ghost rest = path@.skip(from as int);
    let index: usize = path[from];
    let next = next_index(beside, children.len(), index, direction);
    assert(rest[0] == index);
    if path.len() - from == 1 {
        match next {
            Some(n) => {
                assert(parts[n as int] == children@[n as int].tree());
                let mut found = children[n].first_leaf_path();
                found.insert(0, n);
                assert(found@ =~= seq![n] + first_leaf(parts[n as int]));
                Some(found)
            },
            None => None,
        }
    } else {
        assert(rest.skip(1) =~= path@.skip(from + 1));
        assert(rest[1] == path@[from + 1]);
        assert(parts[index as int] == children@[index as int].tree());
        match adjacent_from(&children[index], path, from + 1, direction) {
            Some(inner) => {
                let mut found = inner;
                found.insert(0, index);
                assert(found@ =~= seq![index] + inner@);
                Some(found)
            },
            None => match next {
                Some(n) => {
                    assert(parts[n as int] == children@[n as int].tree());
                    let mut found = children[n].leaf_at_index(path[from + 1]);
                    found.insert(0, n);
                    assert(found@ =~= seq![n] + leaf_near(parts[n as int], rest[1] as nat));
                    Some(found)
                },
                None => None,
            },
        }
    }
}

impl PaneLayout {
    /// The path to the pane next to the one at the end of the path, in the
    /// direction with the name.
    pub fn find_adjacent_pane(&self, path: &[usize], direction: &str) -> (r: Option<Vec<usize>>)
        requires
            direction_named(direction@) matches Some(d) ==> can_go(self.tree(), path@, d),
        ensures
            match r {
                Some(p) => direction_named(direction@) matches Some(d) && adjacent(
                    self.tree(),
                    path@,
                    d,
                ) == Some(p@),
                None => direction_named(direction@) matches Some(d) ==> adjacent(
                    self.tree(),
                    path@,
                    d,
                ) is None,
            },
    {
        match parse_direction(direction) {
            Some(d) => {
                assert(path@.skip(0) =~= path@);
                adjacent_from(self, path, 0, d)
            },
            None => None,
        }
    }
}

fn does_lead_down(layout: &PaneLayout) -> (r: bool)
    ensures
        r == leads_down(layout.tree()),
    decreases layout,
{
    match layout {
        PaneLayout::Single(_) => true,
        PaneLayout::Horizontal(children, ratio) => {
            proof {
                lemma_horizontal(*children, *ratio);
            }
            assert(children@.len() > 0 ==> trees(children@)[0] == children@[0].tree());
            children.len() > 0 && does_lead_down(&children[0])
        },
        PaneLayout::Vertical(children, ratio) => {
            proof {
                lemma_vertical(*children, *ratio);
            }
            assert(children@.len() > 0 ==> trees(children@)[0] == children@[0].tree());
            children.len() > 0 && does_lead_down(&children[0])
        },
    }
}

fn does_lead_near(layout: &PaneLayout, index: usize) -> (r: bool)
    ensures
        r == leads_near(layout.tree(), index as nat),
{
    let children: &Vec<PaneLayout> = match layout {
        PaneLayout::Single(_) => {
            return true;
        },
        PaneLayout::Horizontal(children, ratio) => {
            proof {
                lemma_horizontal(*children, *ratio);
            }
            children
        },
        PaneLayout::Vertical(children, ratio) => {
            proof {
                lemma_vertical(*children, *ratio);
            }
            children
        },
    };
    if children.len() == 0 {
        return true;
    }
    let i: usize = if index < children.len() {
        index
    } else {
        children.len() - 1
    };
    assert(trees(children@)[i as int] == children@[i as int].tree());
    does_lead_down(&children[i])
}

fn fits_beside(index: usize, direction: Direction) -> (r: bool)
    ensures
        r == (i32::MIN <= index_beside(index, direction) <= i32::MAX),
{
    let low: u64 = index as u64 % 0x1_0000_0000;
    match direction {
        Direction::Left | Direction::Up => low != 0x8000_0000,
        _ => low != 0x7fff_ffff,
    }
}

fn can_go_in(
    beside: bool,
    children: &Vec<PaneLayout>,
    ratio: Float32,
    path: &[usize],
    from: usize,
    direction: Direction,
) -> (r: bool)
    requires
        from < path.len(),
    ensures
        r == can_go(
            PaneTree::Split { beside, parts: trees(children@), ratio },
            path@.skip(from as int),
            direction,
        ),
    decreases path.len() - from, 0int,
{
    let ghost parts = trees(children@);
    let ghost rest = path@.skip(from as int);
    let index: usize = path[from];
    assert(rest[0] == index);
    let last: bool = path.len() - from == 1;
    let mut turns: bool = true;
    if !last {
        assert(rest.skip(1) =~= path@.skip(from + 1));
        if index >= children.len() {
            return false;
        }
        assert(parts[index as int] == children@[index as int].tree());
        if !can_go_from(&children[index], path, from + 1, direction) {
            return false;
        }
        turns = adjacent_from(&children[index], path, from + 1, direction).is_none();
    }
    let sideways: bool = match direction {
        Direction::Left | Direction::Right => true,
        _ => false,
    };
    if !turns || sideways != beside {
        return true;
    }
    if !fits_beside(index, direction) {
        return false;
    }
    match next_index(beside, children.len(), index, direction) {
        Some(n) => {
            assert(parts[n as int] == children@[n as int].tree());
            if last {
                does_lead_down(&children[n])
            } else {
                assert(rest[1] == path@[from + 1]);
                does_lead_near(&children[n], path[from + 1])
            }
        },
        None => true,
    }
}

fn can_go_from(layout: &PaneLayout, path: &[usize], from: usize, direction: Direction) -> (r: bool)
    requires
        from <= path.len(),
    ensures
        r == can_go(layout.tree(), path@.skip(from as int), direction),
    decreases path.len() - from, 1int,
{
    if from == path.len() {
        return true;
    }
    match layout {
        PaneLayout::Single(_) => true,
        PaneLayout::Horizontal(children, ratio) => {
            proof {
                lemma_horizontal(*children, *ratio);
            }
            can_go_in(false, children, *ratio, path, from, direction)
        },
        PaneLayout::Vertical(children, ratio) => {
            proof {
                lemma_vertical(*children, *ratio);
            }
            can_go_in(true, children, *ratio, path, from, direction)
        },
    }
}

impl PaneLayout {
    /// Whether the way from the end of the path in the direction with the name can be
    /// gone; a name of no direction leads nowhere, and can.
    pub fn can_find_adjacent_pane(&self, path: &[usize], direction: &str) -> (r: bool)
        ensures
            r == (direction_named(direction@) matches Some(d) ==> can_go(self.tree(), path@, d)),
    {
        match parse_direction(direction) {
            Some(d) => {
                assert(path@.skip(0) =~= path@);
                can_go_from(self, path, 0, d)
            },
            None => true,
        }
    }
}

/// The path to the first pane with the tab.
pub open spec fn path_to(tree: PaneTree, tab_id: Seq<char>) -> Option<Seq<usize>>
    decreases tree, 0int,
{
    match tree {
        PaneTree::Pane { tab } => if tab == tab_id {
            Some(Seq::empty())
        } else {
            None
        },
        PaneTree::Split { beside, parts, ratio } => path_within(parts, 0, tab_id),
    }
}

/// The path to the first pane with the tab in the parts from an index on.
pub open spec fn path_within(parts: Seq<PaneTree>, from: nat, tab_id: Seq<char>) -> Option<
    Seq<usize>,
>
    decreases parts, parts.len() - from,
{
    if from >= parts.len() {
        None
    } else {
        match path_to(parts[from as int], tab_id) {
            Some(inner) => Some(seq![from as usize] + inner),
            None => path_within(parts, from + 1, tab_id),
        }
    }
}

fn find_within(children: &Vec<PaneLayout>, tab_id: &str) -> (r: Option<Vec<usize>>)
    ensures
        match r {
            Some(p) => path_within(trees(children@), 0, tab_id@) == Some(p@),
            None => path_within(trees(children@), 0, tab_id@) is None,
        },
    decreases children@, 1int,
{
    let mut i: usize = 0;
    let ghost parts = trees(children@);
    while i < children.len()
        invariant
            i <= children.len(),
            parts == trees(children@),
            path_within(parts, 0, tab_id@) == path_within(parts, i as nat, tab_id@),
        decreases children.len() - i,
    {
        assert(parts[i as int] == children@[i as int].tree());
        if let Some(inner) = find_path(&children[i], tab_id) {
            let mut found = inner;
            found.insert(0, i);
            assert(found@ =~= seq![i] + inner@);
            return Some(found);
        }
        i += 1;
    }
    None
}

/// The path to the first pane with the tab.
pub fn find_path(layout: &PaneLayout, tab_id: &str) -> (r: Option<Vec<usize>>)
    ensures
        match r {
            Some(p) => path_to(layout.tree(), tab_id@) == Some(p@),
            None => path_to(layout.tree(), tab_id@) is None,
        },
    decreases layout, 0int,
{
    match layout {
        PaneLayout::Single(tab) => if same_text(tab.as_str(), tab_id) {
            let path: Vec<usize> = Vec::new();
            assert(path@ =~= Seq::<usize>::empty());
            Some(path)
        } else {
            None
        },
        PaneLayout::Horizontal(children, ratio) => {
            proof {
                lemma_horizontal(*children, *ratio);
            }
            find_within(children, tab_id)
        },
        PaneLayout::Vertical(children, ratio) => {
            proof {
                lemma_vertical(*children, *ratio);
            }
            find_within(children, tab_id)
        },
    }
}

proof fn lemma_first_leaf(tree: PaneTree)
    requires
        solid(tree),
    ensures
        pane_at(tree, first_leaf(tree)) is Some,
    decreases tree,
{
    match tree {
        PaneTree::Pane { tab } => {},
        PaneTree::Split { beside, parts, ratio } => {
            lemma_part_solid(parts, 0);
            lemma_first_leaf(parts[0]);
            assert(first_leaf(tree).skip(1) =~= first_leaf(parts[0]));
        },
    }
}

proof fn lemma_leaf_near(tree: PaneTree, index: nat)
    requires
        solid(tree),
        index <= usize::MAX,
    ensures
        pane_at(tree, leaf_near(tree, index)) is Some,
{
    match tree {
        PaneTree::Pane { tab } => {},
        PaneTree::Split { beside, parts, ratio } => {
            let i = if index < parts.len() {
                index as int
            } else {
                parts.len() - 1
            };
            lemma_part_solid(parts, i);
            lemma_first_leaf(parts[i]);
            assert(leaf_near(tree, index).skip(1) =~= first_leaf(parts[i]));
        },
    }
}

/// Going from a pane in a direction leads to a pane, and to another one.
pub proof fn going_leads_to_another_pane(
    tree: PaneTree,
    path: Seq<usize>,
    direction: Direction,
    found: Seq<usize>,
)
    requires
        solid(tree),
        pane_at(tree, path) is Some,
        adjacent(tree, path, direction) == Some(found),
    ensures
        pane_at(tree, found) is Some,
        found != path,
    decreases path.len(),
{
    let parts = tree->parts;
    let next = next_part(tree->beside, parts.len(), path[0], direction);
    let rest = path.skip(1);
    lemma_part_solid(parts, path[0] as int);
    if path.len() > 1 && adjacent(parts[path[0] as int], rest, direction) is Some {
        let inner = adjacent(parts[path[0] as int], rest, direction)->0;
        going_leads_to_another_pane(parts[path[0] as int], rest, direction, inner);
        assert(found.skip(1) =~= inner);
    } else {
        let n = next->0;
        lemma_part_solid(parts, n);
        assert(found[0] == n as usize);
        if path.len() == 1 {
            lemma_first_leaf(parts[n]);
            assert(found.skip(1) =~= first_leaf(parts[n]));
        } else {
            lemma_leaf_near(parts[n], path[1] as nat);
            assert(found.skip(1) =~= leaf_near(parts[n], path[1] as nat));
        }
    }
}

proof fn lemma_part_tabs_split(parts: Seq<PaneTree>, i: int)
    requires
        0 <= i < parts.len(),
    ensures
        part_tabs(parts) == part_tabs(parts.take(i)) + pane_tabs(parts[i]) + part_tabs(
            parts.skip(i + 1),
        ),
    decreases parts.len(),
{
    if i == parts.len() - 1 {
        assert(parts.take(i) =~= parts.drop_last());
        assert(part_tabs(parts.skip(i + 1)) =~= Seq::empty());
        assert(part_tabs(parts) =~= part_tabs(parts.take(i)) + pane_tabs(parts[i]) + part_tabs(
            parts.skip(i + 1),
        ));
    } else {
        let short = parts.drop_last();
        lemma_part_tabs_split(short, i);
        assert(short.take(i) =~= parts.take(i));
        assert(parts.skip(i + 1).drop_last() =~= short.skip(i + 1));
        assert(parts.skip(i + 1).last() == parts.last());
        assert(part_tabs(parts) =~= part_tabs(parts.take(i)) + pane_tabs(parts[i]) + part_tabs(
            parts.skip(i + 1),
        ));
    }
}

/// A path to a tab is found exactly where a pane shows the tab, and it leads to
/// such a pane.
pub proof fn found_path_leads_to_the_tab(layout: PaneLayout, tab_id: Seq<char>)
    ensures
        path_to(layout.tree(), tab_id) is Some <==> pane_tabs(layout.tree()).contains(tab_id),
        path_to(layout.tree(), tab_id) matches Some(path) ==> pane_at(layout.tree(), path) == Some(
            tab_id,
        ),
{
    lemma_widths(layout);
    lemma_path_to(layout.tree(), tab_id);
}

pub proof fn lemma_path_to(tree: PaneTree, tab_id: Seq<char>)
    requires
        widths_fit(tree),
    ensures
        path_to(tree, tab_id) is Some <==> pane_tabs(tree).contains(tab_id),
        path_to(tree, tab_id) matches Some(path) ==> pane_at(tree, path) == Some(tab_id),
    decreases tree, 0int,
{
    match tree {
        PaneTree::Pane { tab } => {
            assert(pane_tabs(tree)[0] == tab);
        },
        PaneTree::Split { beside, parts, ratio } => {
            lemma_path_within(tree, parts, 0, tab_id);
            assert(parts.skip(0) =~= parts);
        },
    }
}

/// Whether the parts of every split can be counted by a machine integer.
pub open spec fn widths_fit(tree: PaneTree) -> bool
    decreases tree,
{
    match tree {
        PaneTree::Pane { tab } => true,
        PaneTree::Split { beside, parts, ratio } => parts.len() <= usize::MAX && all_widths_fit(
            parts,
        ),
    }
}

pub open spec fn all_widths_fit(parts: Seq<PaneTree>) -> bool
    decreases parts,
{
    parts.len() == 0 || (all_widths_fit(parts.drop_last()) && widths_fit(parts.last()))
}

proof fn lemma_all_widths(layouts: Seq<PaneLayout>)
    ensures
        all_widths_fit(trees(layouts)),
    decreases layouts,
{
    if layouts.len() > 0 {
        lemma_all_widths(layouts.drop_last());
        lemma_widths(layouts.last());
        assert(trees(layouts).drop_last() =~= trees(layouts.drop_last()));
    }
}

proof fn lemma_widths(layout: PaneLayout)
    ensures
        widths_fit(layout.tree()),
    decreases layout,
{
    match layout {
        PaneLayout::Single(tab) => {},
        PaneLayout::Horizontal(children, ratio) => {
            lemma_horizontal(children, ratio);
            lemma_all_widths(children@);
            assert(children@.len() == children.len());
        },
        PaneLayout::Vertical(children, ratio) => {
            lemma_vertical(children, ratio);
            lemma_all_widths(children@);
            assert(children@.len() == children.len());
        },
    }
}

proof fn lemma_part_width(parts: Seq<PaneTree>, i: int)
    requires
        all_widths_fit(parts),
        0 <= i < parts.len(),
    ensures
        widths_fit(parts[i]),
    decreases parts.len(),
{
    if i < parts.len() - 1 {
        lemma_part_width(parts.drop_last(), i);
    }
}

proof fn lemma_path_within(tree: PaneTree, parts: Seq<PaneTree>, from: nat, tab_id: Seq<char>)
    requires
        tree matches PaneTree::Split { parts: p, .. } && p == parts,
        widths_fit(tree),
        from <= parts.len(),
    ensures
        path_within(parts, from, tab_id) is Some <==> part_tabs(
            parts.skip(from as int),
        ).contains(tab_id),
        path_within(parts, from, tab_id) matches Some(path) ==> pane_at(tree, path) == Some(tab_id),
    decreases parts, parts.len() - from,
{
    if from < parts.len() {
        let here = parts.skip(from as int);
        lemma_part_width(parts, from as int);
        lemma_path_to(parts[from as int], tab_id);
        lemma_path_within(tree, parts, from + 1, tab_id);
        lemma_part_tabs_split(here, 0);
        assert(here.take(0) =~= Seq::empty());
        assert(here.skip(1) =~= parts.skip(from as int + 1));
        let a = pane_tabs(parts[from as int]);
        let b = part_tabs(parts.skip(from as int + 1));
        assert(part_tabs(here) =~= a + b);
        assert((a + b).contains(tab_id) <==> a.contains(tab_id) || b.contains(tab_id)) by {
            if a.contains(tab_id) {
                let k = choose|k: int| 0 <= k < a.len() && a[k] == tab_id;
                assert((a + b)[k] == tab_id);
            }
            if b.contains(tab_id) {
                let k = choose|k: int| 0 <= k < b.len() && b[k] == tab_id;
                assert((a + b)[a.len() + k] == tab_id);
            }
        }
        if let Some(inner) = path_to(parts[from as int], tab_id) {
            let path = seq![from as usize] + inner;
            assert(path.skip(1) =~= inner);
        }
    } else {
        assert(parts.skip(from as int) =~= Seq::empty());
    }
}

/// The tabs of the panes before what stands at the end of the path.
pub open spec fn tabs_before(tree: PaneTree, path: Seq<usize>) -> Seq<Seq<char>>
    decreases path.len(),
{
    if path.len() == 0 {
        Seq::empty()
    } else {
        match tree {
            PaneTree::Pane { tab } => Seq::empty(),
            PaneTree::Split { beside, parts, ratio } => part_tabs(parts.take(path[0] as int))
                + tabs_before(parts[path[0] as int], path.skip(1)),
        }
    }
}

/// The tabs of the panes after what stands at the end of the path.
pub open spec fn tabs_after(tree: PaneTree, path: Seq<usize>) -> Seq<Seq<char>>
    decreases path.len(),
{
    if path.len() == 0 {
        Seq::empty()
    } else {
        match tree {
            PaneTree::Pane { tab } => Seq::empty(),
            PaneTree::Split { beside, parts, ratio } => tabs_after(
                parts[path[0] as int],
                path.skip(1),
            ) + part_tabs(parts.skip(path[0] + 1)),
        }
    }
}

/// Replacing what stands at the end of a path changes the tabs there and no
/// others, and the path then leads to what was put in.
pub proof fn replacing_keeps_the_other_panes(tree: PaneTree, path: Seq<usize>, new: PaneTree)
    requires
        node_at(tree, path) is Some,
    ensures
        pane_tabs(tree) == tabs_before(tree, path) + pane_tabs(node_at(tree, path)->0)
            + tabs_after(tree, path),
        pane_tabs(replaced(tree, path, new)) == tabs_before(tree, path) + pane_tabs(new)
            + tabs_after(tree, path),
        node_at(replaced(tree, path, new), path) == Some(new),
    decreases path.len(),
{
    if path.len() == 0 {
        assert(pane_tabs(tree) =~= Seq::empty() + pane_tabs(tree) + Seq::empty());
        assert(pane_tabs(new) =~= Seq::empty() + pane_tabs(new) + Seq::empty());
    } else {
        let parts = tree->parts;
        let i = path[0] as int;
        let rest = path.skip(1);
        replacing_keeps_the_other_panes(parts[i], rest, new);
        let changed = parts.update(i, replaced(parts[i], rest, new));
        lemma_part_tabs_split(parts, i);
        lemma_part_tabs_split(changed, i);
        assert(changed.take(i) =~= parts.take(i));
        assert(changed.skip(i + 1) =~= parts.skip(i + 1));
        let front = part_tabs(parts.take(i));
        let back = part_tabs(parts.skip(i + 1));
        lemma_nested(
            front,
            tabs_before(parts[i], rest),
            pane_tabs(node_at(tree, path)->0),
            tabs_after(parts[i], rest),
            back,
        );
        lemma_nested(
            front,
            tabs_before(parts[i], rest),
            pane_tabs(new),
            tabs_after(parts[i], rest),
            back,
        );
    }
}

proof fn lemma_nested<A>(a: Seq<A>, b: Seq<A>, c: Seq<A>, d: Seq<A>, e: Seq<A>)
    ensures
        a + (b + c + d) + e == (a + b) + c + (d + e),
{
    assert(a + (b + c + d) + e =~= (a + b) + c + (d + e));
}

/// The split that puts a new pane next to another one.
pub open spec fn split_of(current: Seq<char>, new: Seq<char>, direction: Direction) -> PaneTree {
    PaneTree::Split {
        beside: direction.sideways(),
        parts: if direction.back() {
            seq![PaneTree::Pane { tab: new }, PaneTree::Pane { tab: current }]
        } else {
            seq![PaneTree::Pane { tab: current }, PaneTree::Pane { tab: new }]
        },
        ratio: Float32 { bits: EVEN_SHARE },
    }
}

/// The place of the new pane in such a split.
pub open spec fn new_place(direction: Direction) -> usize {
    if direction.back() {
        0
    } else {
        1
    }
}

impl PaneLayout {
    /// Splits the pane at the end of the path, which shows `current`, and returns
    /// the path to the new pane.
    pub fn split_pane(
        &mut self,
        path: &[usize],
        current: &str,
        new: &str,
        direction: Direction,
    ) -> (r: Vec<usize>)
        ensures
            final(self).tree() == replaced(
                old(self).tree(),
                path@,
                split_of(current@, new@, direction),
            ),
            r@ == path@.push(new_place(direction)),
    {
        let current_pane = PaneLayout::Single(current.to_string());
        let new_pane = PaneLayout::Single(new.to_string());
        let mut children: Vec<PaneLayout> = Vec::new();
        let mut place: usize = 1;
        match direction {
            Direction::Left | Direction::Up => {
                children.push(new_pane);
                children.push(current_pane);
                place = 0;
            },
            _ => {
                children.push(current_pane);
                children.push(new_pane);
            },
        }
        let ratio = Float32 { bits: EVEN_SHARE };
        assert(trees(children@) =~= split_of(current@, new@, direction)->parts);
        let layout = match direction {
            Direction::Left | Direction::Right => {
                proof {
                    lemma_vertical(children, ratio);
                }
                PaneLayout::Vertical(children, ratio)
            },
            _ => {
                proof {
                    lemma_horizontal(children, ratio);
                }
                PaneLayout::Horizontal(children, ratio)
            },
        };
        self.replace_at(path, layout);
        let mut new_path: Vec<usize> = copy_path(path);
        new_path.push(place);
        new_path
    }
}

fn copy_path(path: &[usize]) -> (r: Vec<usize>)
    ensures
        r@ == path@,
{
    let mut r: Vec<usize> = Vec::new();
    let mut i: usize = 0;
    while i < path.len()
        invariant
            i <= path.len(),
            r@ =~= path@.take(i as int),
        decreases path.len() - i,
    {
        r.push(path[i]);
        i += 1;
    }
    assert(path@.take(i as int) =~= path@);
    r
}

/// Splitting a pane adds the new pane right before or after it and leaves the
/// others as they were. The returned path leads to the new pane.
pub proof fn splitting_adds_one_pane(
    tree: PaneTree,
    path: Seq<usize>,
    current: Seq<char>,
    new: Seq<char>,
    direction: Direction,
)
    requires
        pane_at(tree, path) == Some(current),
    ensures
        ({
            let after = replaced(tree, path, split_of(current, new, direction));
            &&& pane_at(after, path.push(new_place(direction))) == Some(new)
            &&& pane_at(after, path.push((1 - new_place(direction)) as usize)) == Some(current)
            &&& pane_tabs(tree) == tabs_before(tree, path) + seq![current] + tabs_after(tree, path)
            &&& pane_tabs(after) == tabs_before(tree, path) + (if direction.back() {
                seq![new, current]
            } else {
                seq![current, new]
            }) + tabs_after(tree, path)
        }),
{
    let split = split_of(current, new, direction);
    replacing_keeps_the_other_panes(tree, path, split);
    let after = replaced(tree, path, split);
    lemma_step(after, path, new_place(direction));
    lemma_step(after, path, (1 - new_place(direction)) as usize);
    lemma_pair_tabs(split->parts[0], split->parts[1]);
    assert(split->parts =~= seq![split->parts[0], split->parts[1]]);
    assert(pane_tabs(split) =~= if direction.back() {
        seq![new, current]
    } else {
        seq![current, new]
    });
}

proof fn lemma_pair_tabs(first: PaneTree, second: PaneTree)
    ensures
        part_tabs(seq![first, second]) == pane_tabs(first) + pane_tabs(second),
{
    let pair = seq![first, second];
    assert(pair.drop_last() =~= seq![first]);
    assert(seq![first].drop_last() =~= Seq::empty());
    assert(part_tabs(seq![first]) =~= pane_tabs(first)) by {
        assert(part_tabs(Seq::<PaneTree>::empty()) =~= Seq::empty());
    }
}

proof fn lemma_step(tree: PaneTree, path: Seq<usize>, step: usize)
    requires
        node_at(tree, path) matches Some(PaneTree::Split { parts, .. }) && step < parts.len(),
    ensures
        node_at(tree, path.push(step)) == Some(node_at(tree, path)->0->parts[step as int]),
    decreases path.len(),
{
    reveal_with_fuel(node_at, 2);
    if path.len() > 0 {
        lemma_step(tree->parts[path[0] as int], path.skip(1), step);
        assert(path.push(step).skip(1) =~= path.skip(1).push(step));
    }
}

/// What is left of an arrangement without the panes that show the tab: a split of
/// which one part is left becomes that part, and one of which none is left goes.
pub open spec fn removed(tree: PaneTree, tab_id: Seq<char>) -> Option<PaneTree>
    decreases tree,
{
    match tree {
        PaneTree::Pane { tab } => if tab == tab_id {
            None
        } else {
            Some(tree)
        },
        PaneTree::Split { beside, parts, ratio } => joined(
            beside,
            kept_parts(parts, tab_id),
            ratio,
        ),
    }
}

/// The split with these parts, the part itself where there is one, or nothing.
pub open spec fn joined(beside: bool, parts: Seq<PaneTree>, ratio: Float32) -> Option<PaneTree> {
    if parts.len() == 0 {
        None
    } else if parts.len() == 1 {
        Some(parts[0])
    } else {
        Some(PaneTree::Split { beside, parts, ratio })
    }
}

pub open spec fn kept_parts(parts: Seq<PaneTree>, tab_id: Seq<char>) -> Seq<PaneTree>
    decreases parts,
{
    if parts.len() == 0 {
        Seq::empty()
    } else {
        match removed(parts.last(), tab_id) {
            Some(part) => kept_parts(parts.drop_last(), tab_id).push(part),
            None => kept_parts(parts.drop_last(), tab_id),
        }
    }
}

/// The arrangement without the panes that show the tab, or one pane without a tab
/// where nothing is left.
pub open spec fn without_tab(tree: PaneTree, tab_id: Seq<char>) -> PaneTree {
    match removed(tree, tab_id) {
        Some(rest) => rest,
        None => PaneTree::Pane { tab: Seq::empty() },
    }
}

fn keep_all(layouts: &Vec<PaneLayout>, tab_id: &str) -> (r: Vec<PaneLayout>)
    ensures
        trees(r@) == kept_parts(trees(layouts@), tab_id@),
    decreases layouts@, 1int,
{
    let mut r: Vec<PaneLayout> = Vec::new();
    let ghost parts = trees(layouts@);
    let mut i: usize = 0;
    assert(trees(r@) =~= kept_parts(parts.take(0), tab_id@));
    while i < layouts.len()
        invariant
            i <= layouts.len(),
            parts == trees(layouts@),
            trees(r@) == kept_parts(parts.take(i as int), tab_id@),
        decreases layouts.len() - i,
    {
        let ghost before = r@;
        assert(parts.take(i + 1).drop_last() =~= parts.take(i as int));
        assert(parts.take(i + 1).last() == layouts@[i as int].tree());
        if let Some(rest) = keep(&layouts[i], tab_id) {
            r.push(rest);
            assert(trees(r@) =~= trees(before).push(rest.tree()));
        }
        i += 1;
    }
    assert(parts.take(i as int) =~= parts);
    r
}

fn keep(layout: &PaneLayout, tab_id: &str) -> (r: Option<PaneLayout>)
    ensures
        match r {
            Some(rest) => removed(layout.tree(), tab_id@) == Some(rest.tree()),
            None => removed(layout.tree(), tab_id@) is None,
        },
    decreases layout, 0int,
{
    match layout {
        PaneLayout::Single(tab) => if same_text(tab.as_str(), tab_id) {
            None
        } else {
            Some(PaneLayout::Single(tab.clone()))
        },
        PaneLayout::Horizontal(children, ratio) => {
            let mut kept = keep_all(children, tab_id);
            proof {
                lemma_horizontal(*children, *ratio);
                lemma_horizontal(kept, *ratio);
            }
            if kept.len() == 1 {
                assert(trees(kept@)[0] == kept@[0].tree());
                kept.pop()
            } else if kept.len() == 0 {
                None
            } else {
                Some(PaneLayout::Horizontal(kept, *ratio))
            }
        },
        PaneLayout::Vertical(children, ratio) => {
            let mut kept = keep_all(children, tab_id);
            proof {
                lemma_vertical(*children, *ratio);
                lemma_vertical(kept, *ratio);
            }
            if kept.len() == 1 {
                assert(trees(kept@)[0] == kept@[0].tree());
                kept.pop()
            } else if kept.len() == 0 {
                None
            } else {
                Some(PaneLayout::Vertical(kept, *ratio))
            }
        },
    }
}

impl PaneLayout {
    /// Takes out the panes that show the tab.
    pub fn remove_tab(&mut self, tab_id: &str)
        ensures
            final(self).tree() == without_tab(old(self).tree(), tab_id@),
    {
        let rest = match keep(self, tab_id) {
            Some(rest) => rest,
            None => PaneLayout::Single(String::new()),
        };
        *self = rest;
    }
}

/// Whether a tab is another one than the given.
pub open spec fn other_than(tab_id: Seq<char>) -> spec_fn(Seq<char>) -> bool {
    |tab: Seq<char>| tab != tab_id
}

proof fn lemma_kept_parts(parts: Seq<PaneTree>, tab_id: Seq<char>)
    ensures
        part_tabs(kept_parts(parts, tab_id)) == part_tabs(parts).filter(other_than(tab_id)),
        all_solid(kept_parts(parts, tab_id)),
    decreases parts,
{
    reveal(Seq::filter);
    if parts.len() > 0 {
        let init = parts.drop_last();
        lemma_kept_parts(init, tab_id);
        lemma_removed(parts.last(), tab_id);
        Seq::filter_distributes_over_add(
            part_tabs(init),
            pane_tabs(parts.last()),
            other_than(tab_id),
        );
        if let Some(part) = removed(parts.last(), tab_id) {
            let kept = kept_parts(init, tab_id);
            assert(kept.push(part).drop_last() =~= kept);
        } else {
            assert(part_tabs(kept_parts(init, tab_id)) =~= part_tabs(init).filter(
                other_than(tab_id),
            ) + pane_tabs(parts.last()).filter(other_than(tab_id)));
        }
    }
}

proof fn lemma_removed(tree: PaneTree, tab_id: Seq<char>)
    ensures
        match removed(tree, tab_id) {
            Some(rest) => pane_tabs(rest) == pane_tabs(tree).filter(other_than(tab_id)) && solid(
                rest,
            ),
            None => pane_tabs(tree).filter(other_than(tab_id)) == Seq::<Seq<char>>::empty(),
        },
    decreases tree,
{
    reveal(Seq::filter);
    match tree {
        PaneTree::Pane { tab } => {
            assert(seq![tab].drop_last() =~= Seq::empty());
            assert(seq![tab].last() == tab);
            assert(Seq::<Seq<char>>::empty().filter(other_than(tab_id)) =~= Seq::empty());
            assert(pane_tabs(tree).filter(other_than(tab_id)) =~= if tab == tab_id {
                Seq::empty()
            } else {
                seq![tab]
            });
        },
        PaneTree::Split { beside, parts, ratio } => {
            lemma_kept_parts(parts, tab_id);
            let kept = kept_parts(parts, tab_id);
            if kept.len() == 1 {
                lemma_part_solid(kept, 0);
                assert(kept.drop_last() =~= Seq::empty());
                assert(part_tabs(kept) =~= pane_tabs(kept[0])) by {
                    assert(part_tabs(Seq::<PaneTree>::empty()) =~= Seq::empty());
                }
            } else if kept.len() == 0 {
                assert(part_tabs(kept) =~= Seq::empty());
            }
        },
    }
}

/// Removing a tab leaves the panes of the other tabs, in their order, and one pane
/// without a tab where there are none. Every split that is left has a part.
pub proof fn removing_leaves_the_other_tabs(tree: PaneTree, tab_id: Seq<char>)
    ensures
        ({
            let others = pane_tabs(tree).filter(other_than(tab_id));
            pane_tabs(without_tab(tree, tab_id)) == if others.len() == 0 {
                seq![Seq::empty()]
            } else {
                others
            }
        }),
        solid(without_tab(tree, tab_id)),
{
    lemma_removed(tree, tab_id);
    if let Some(rest) = removed(tree, tab_id) {
        lemma_solid_has_tabs(rest);
    }
}

proof fn lemma_solid_has_tabs(tree: PaneTree)
    requires
        solid(tree),
    ensures
        pane_tabs(tree).len() > 0,
    decreases tree,
{
    if let PaneTree::Split { beside, parts, ratio } = tree {
        lemma_part_solid(parts, parts.len() - 1);
        lemma_solid_has_tabs(parts.last());
    }
}

/// The arrangement with every share kept between the least and the greatest one.
pub open spec fn restored(tree: PaneTree) -> PaneTree
    decreases tree,
{
    match tree {
        PaneTree::Pane { tab } => tree,
        PaneTree::Split { beside, parts, ratio } => PaneTree::Split {
            beside,
            parts: restored_parts(parts),
            ratio: kept_share(ratio),
        },
    }
}

pub open spec fn restored_parts(parts: Seq<PaneTree>) -> Seq<PaneTree>
    decreases parts,
{
    if parts.len() == 0 {
        Seq::empty()
    } else {
        restored_parts(parts.drop_last()).push(restored(parts.last()))
    }
}

fn save_all(layouts: &Vec<PaneLayout>) -> (r: Vec<SavedPaneLayout>)
    ensures
        SavedPaneLayout::trees(r@) == trees(layouts@),
    decreases layouts@, 1int,
{
    let mut r: Vec<SavedPaneLayout> = Vec::new();
    let ghost parts = trees(layouts@);
    let mut i: usize = 0;
    while i < layouts.len()
        invariant
            i <= layouts.len(),
            parts == trees(layouts@),
            SavedPaneLayout::trees(r@) =~= parts.take(i as int),
        decreases layouts.len() - i,
    {
        let ghost before = r@;
        let saved = save_pane_layout(&layouts[i]);
        r.push(saved);
        assert(SavedPaneLayout::trees(r@) =~= SavedPaneLayout::trees(before).push(saved.tree()));
        assert(parts.take(i + 1) =~= parts.take(i as int).push(parts[i as int]));
        i += 1;
    }
    assert(parts.take(i as int) =~= parts);
    r
}

/// The layout as it is stored.
pub fn save_pane_layout(layout: &PaneLayout) -> (r: SavedPaneLayout)
    ensures
        r.tree() == layout.tree(),
    decreases layout, 0int,
{
    match layout {
        PaneLayout::Single(tab) => SavedPaneLayout::Single { tab_id: tab.clone() },
        PaneLayout::Horizontal(children, ratio) => {
            let saved = save_all(children);
            let r = SavedPaneLayout::Horizontal { children: saved, ratio: *ratio };
            proof {
                lemma_horizontal(*children, *ratio);
                assert(r.tree()->parts =~= SavedPaneLayout::trees(saved@));
            }
            r
        },
        PaneLayout::Vertical(children, ratio) => {
            let saved = save_all(children);
            let r = SavedPaneLayout::Vertical { children: saved, ratio: *ratio };
            proof {
                lemma_vertical(*children, *ratio);
                assert(r.tree()->parts =~= SavedPaneLayout::trees(saved@));
            }
            r
        },
    }
}

fn restore_all(layouts: &Vec<SavedPaneLayout>) -> (r: Vec<PaneLayout>)
    ensures
        trees(r@) == restored_parts(SavedPaneLayout::trees(layouts@)),
    decreases layouts@, 1int,
{
    let mut r: Vec<PaneLayout> = Vec::new();
    let ghost parts = SavedPaneLayout::trees(layouts@);
    let mut i: usize = 0;
    assert(trees(r@) =~= restored_parts(parts.take(0)));
    while i < layouts.len()
        invariant
            i <= layouts.len(),
            parts == SavedPaneLayout::trees(layouts@),
            trees(r@) == restored_parts(parts.take(i as int)),
        decreases layouts.len() - i,
    {
        let ghost before = r@;
        let layout = restore_pane_layout(&layouts[i]);
        r.push(layout);
        assert(trees(r@) =~= trees(before).push(layout.tree()));
        assert(parts.take(i + 1).drop_last() =~= parts.take(i as int));
        assert(parts.take(i + 1).last() == layouts@[i as int].tree());
        i += 1;
    }
    assert(parts.take(i as int) =~= parts);
    r
}

/// The layout that was stored, with its shares kept within the limits.
pub fn restore_pane_layout(layout: &SavedPaneLayout) -> (r: PaneLayout)
    ensures
        r.tree() == restored(layout.tree()),
    decreases layout, 0int,
{
    match layout {
        SavedPaneLayout::Single { tab_id } => PaneLayout::Single(tab_id.clone()),
        SavedPaneLayout::Horizontal { children, ratio } => {
            let layouts = restore_all(children);
            let share = ratio.clamp(
                Float32 { bits: LEAST_SHARE },
                Float32 { bits: GREATEST_SHARE },
            );
            proof {
                assert(layout.tree()->parts =~= SavedPaneLayout::trees(children@));
                lemma_horizontal(layouts, share);
            }
            PaneLayout::Horizontal(layouts, share)
        },
        SavedPaneLayout::Vertical { children, ratio } => {
            let layouts = restore_all(children);
            let share = ratio.clamp(
                Float32 { bits: LEAST_SHARE },
                Float32 { bits: GREATEST_SHARE },
            );
            proof {
                assert(layout.tree()->parts =~= SavedPaneLayout::trees(children@));
                lemma_vertical(layouts, share);
            }
            PaneLayout::Vertical(layouts, share)
        },
    }
}

/// Whether every share is within the limits.
pub open spec fn shares_kept(tree: PaneTree) -> bool
    decreases tree,
{
    match tree {
        PaneTree::Pane { tab } => true,
        PaneTree::Split { beside, parts, ratio } => kept_share(ratio) == ratio && all_shares_kept(
            parts,
        ),
    }
}

pub open spec fn all_shares_kept(parts: Seq<PaneTree>) -> bool
    decreases parts,
{
    parts.len() == 0 || (all_shares_kept(parts.drop_last()) && shares_kept(parts.last()))
}

/// A layout whose shares are within the limits comes back from the store as it
/// was.
pub proof fn restoring_gives_back_the_saved(tree: PaneTree)
    requires
        shares_kept(tree),
    ensures
        restored(tree) == tree,
    decreases tree,
{
    if let PaneTree::Split { beside, parts, ratio } = tree {
        lemma_parts_come_back(parts);
    }
}

proof fn lemma_parts_come_back(parts: Seq<PaneTree>)
    requires
        all_shares_kept(parts),
    ensures
        restored_parts(parts) == parts,
    decreases parts,
{
    if parts.len() > 0 {
        lemma_parts_come_back(parts.drop_last());
        restoring_gives_back_the_saved(parts.last());
    }
    assert(restored_parts(parts) =~= parts);
}

/// What is restored has its shares within the limits and shows the stored tabs, in
/// their order.
pub proof fn restoring_keeps_the_tabs(tree: PaneTree)
    ensures
        shares_kept(restored(tree)),
        pane_tabs(restored(tree)) == pane_tabs(tree),
        solid(tree) ==> solid(restored(tree)),
    decreases tree,
{
    if let PaneTree::Split { beside, parts, ratio } = tree {
        lemma_parts_keep_their_tabs(parts);
        lemma_share_is_kept(ratio);
    }
}

proof fn lemma_share_is_kept(share: Float32)
    ensures
        kept_share(kept_share(share)) == kept_share(share),
{
}

proof fn lemma_parts_keep_their_tabs(parts: Seq<PaneTree>)
    ensures
        restored_parts(parts).len() == parts.len(),
        all_shares_kept(restored_parts(parts)),
        part_tabs(restored_parts(parts)) == part_tabs(parts),
        all_solid(parts) ==> all_solid(restored_parts(parts)),
    decreases parts,
{
    if parts.len() > 0 {
        let init = parts.drop_last();
        lemma_parts_keep_their_tabs(init);
        restoring_keeps_the_tabs(parts.last());
        assert(restored_parts(parts).drop_last() =~= restored_parts(init));
    }
}

proof fn lemma_all_solid(parts: Seq<PaneTree>)
    requires
        forall|i: int| 0 <= i < parts.len() ==> solid(#[trigger] parts[i]),
    ensures
        all_solid(parts),
    decreases parts.len(),
{
    if parts.len() > 0 {
        let init = parts.drop_last();
        assert forall|i: int| 0 <= i < init.len() implies solid(#[trigger] init[i]) by {
            assert(init[i] == parts[i]);
        }
        lemma_all_solid(init);
    }
}

/// Putting in a layout whose splits have parts leaves every split with a part.
pub proof fn replacing_keeps_splits_filled(tree: PaneTree, path: Seq<usize>, new: PaneTree)
    requires
        solid(tree),
        solid(new),
    ensures
        solid(replaced(tree, path, new)),
    decreases path.len(),
{
    if path.len() > 0 {
        if let PaneTree::Split { beside, parts, ratio } = tree {
            if path[0] < parts.len() {
                let index = path[0] as int;
                lemma_part_solid(parts, index);
                replacing_keeps_splits_filled(parts[index], path.skip(1), new);
                let changed = parts.update(index, replaced(parts[index], path.skip(1), new));
                assert forall|i: int| 0 <= i < changed.len() implies solid(
                    #[trigger] changed[i],
                ) by {
                    lemma_part_solid(parts, i);
                }
                lemma_all_solid(changed);
            }
        }
    }
}

/// Splitting a pane leaves every split with a part.
pub proof fn splitting_keeps_splits_filled(
    tree: PaneTree,
    path: Seq<usize>,
    current: Seq<char>,
    new: Seq<char>,
    direction: Direction,
)
    requires
        solid(tree),
    ensures
        solid(replaced(tree, path, split_of(current, new, direction))),
{
    let split = split_of(current, new, direction);
    lemma_all_solid(split->parts);
    replacing_keeps_splits_filled(tree, path, split);
}

/// Giving a split another share leaves the panes and their order.
pub proof fn resizing_keeps_the_panes(tree: PaneTree, path: Seq<usize>, share: Float32)
    ensures
        pane_tabs(with_ratio(tree, path, share)) == pane_tabs(tree),
        solid(tree) ==> solid(with_ratio(tree, path, share)),
{
    if let Some(PaneTree::Split { beside, parts, ratio }) = node_at(tree, path) {
        let split = PaneTree::Split { beside, parts, ratio: share };
        replacing_keeps_the_other_panes(tree, path, split);
        if solid(tree) {
            lemma_node_solid(tree, path);
            replacing_keeps_splits_filled(tree, path, split);
        }
    }
}

proof fn lemma_node_solid(tree: PaneTree, path: Seq<usize>)
    requires
        solid(tree),
        node_at(tree, path) is Some,
    ensures
        solid(node_at(tree, path)->0),
    decreases path.len(),
{
    if path.len() > 0 {
        lemma_part_solid(tree->parts, path[0] as int);
        lemma_node_solid(tree->parts[path[0] as int], path.skip(1));
    }
}

fn all_filled(layouts: &Vec<PaneLayout>) -> (r: bool)
    ensures
        r == all_solid(trees(layouts@)),
    decreases layouts@, 1int,
{
    let mut i: usize = 0;
    let ghost parts = trees(layouts@);
    while i < layouts.len()
        invariant
            i <= layouts.len(),
            parts == trees(layouts@),
            forall|k: int| 0 <= k < i ==> solid(#[trigger] parts[k]),
        decreases layouts.len() - i,
    {
        assert(parts[i as int] == layouts@[i as int].tree());
        if !is_filled(&layouts[i]) {
            proof {
                if all_solid(parts) {
                    lemma_part_solid(parts, i as int);
                }
            }
            return false;
        }
        i += 1;
    }
    proof {
        lemma_all_solid(parts);
    }
    true
}

pub proof fn lemma_all_fit(parts: Seq<PaneTree>)
    requires
        forall|i: int| 0 <= i < parts.len() ==> widths_fit(#[trigger] parts[i]),
    ensures
        all_widths_fit(parts),
    decreases parts.len(),
{
    if parts.len() > 0 {
        let init = parts.drop_last();
        assert forall|i: int| 0 <= i < init.len() implies widths_fit(#[trigger] init[i]) by {
            assert(init[i] == parts[i]);
        }
        lemma_all_fit(init);
        assert(parts.last() == parts[parts.len() - 1]);
    }
}

proof fn lemma_kept_fit(parts: Seq<PaneTree>, tab_id: Seq<char>)
    requires
        all_widths_fit(parts),
    ensures
        all_widths_fit(kept_parts(parts, tab_id)),
        kept_parts(parts, tab_id).len() <= parts.len(),
    decreases parts,
{
    if parts.len() > 0 {
        lemma_kept_fit(parts.drop_last(), tab_id);
        lemma_removing_fits(parts.last(), tab_id);
        if let Some(part) = removed(parts.last(), tab_id) {
            let kept = kept_parts(parts.drop_last(), tab_id);
            assert(kept.push(part).drop_last() =~= kept);
        }
    }
}

pub proof fn lemma_removing_fits(tree: PaneTree, tab_id: Seq<char>)
    requires
        widths_fit(tree),
    ensures
        removed(tree, tab_id) matches Some(rest) ==> widths_fit(rest),
        widths_fit(without_tab(tree, tab_id)),
    decreases tree,
{
    if let PaneTree::Split { beside, parts, ratio } = tree {
        lemma_kept_fit(parts, tab_id);
        let kept = kept_parts(parts, tab_id);
        if kept.len() == 1 {
            lemma_part_width(kept, 0);
        }
    }
}

pub proof fn lemma_replacing_fits(tree: PaneTree, path: Seq<usize>, new: PaneTree)
    requires
        widths_fit(tree),
        widths_fit(new),
    ensures
        widths_fit(replaced(tree, path, new)),
    decreases path.len(),
{
    if path.len() > 0 {
        if let PaneTree::Split { beside, parts, ratio } = tree {
            if path[0] < parts.len() {
                lemma_part_width(parts, path[0] as int);
                lemma_replacing_fits(parts[path[0] as int], path.skip(1), new);
                let after = parts.update(
                    path[0] as int,
                    replaced(parts[path[0] as int], path.skip(1), new),
                );
                assert forall|i: int| 0 <= i < after.len() implies widths_fit(#[trigger] after[i]) by {
                    if i != path[0] {
                        lemma_part_width(parts, i);
                    }
                }
                lemma_all_fit(after);
            }
        }
    }
}

proof fn lemma_restored_parts_fit(parts: Seq<PaneTree>)
    requires
        all_widths_fit(parts),
    ensures
        all_widths_fit(restored_parts(parts)),
        restored_parts(parts).len() == parts.len(),
    decreases parts,
{
    if parts.len() > 0 {
        lemma_restored_parts_fit(parts.drop_last());
        lemma_restoring_fits(parts.last());
        let init = restored_parts(parts.drop_last());
        assert(restored_parts(parts).drop_last() =~= init);
    }
}

pub proof fn lemma_restoring_fits(tree: PaneTree)
    requires
        widths_fit(tree),
    ensures
        widths_fit(restored(tree)),
    decreases tree,
{
    if let PaneTree::Split { beside, parts, ratio } = tree {
        lemma_restored_parts_fit(parts);
    }
}

/// The pane at the end of a path is one of the panes.
pub proof fn lemma_pane_is_shown(tree: PaneTree, path: Seq<usize>)
    requires
        pane_at(tree, path) is Some,
    ensures
        pane_tabs(tree).contains(pane_at(tree, path)->0),
{
    let node = node_at(tree, path)->0;
    let tab = pane_at(tree, path)->0;
    replacing_keeps_the_other_panes(tree, path, node);
    let before = tabs_before(tree, path);
    assert(pane_tabs(node) =~= seq![tab]);
    assert((before + seq![tab] + tabs_after(tree, path))[before.len() as int] == tab);
}

/// A solid arrangement shows a tab.
pub proof fn lemma_solid_shows(tree: PaneTree)
    requires
        solid(tree),
    ensures
        pane_tabs(tree).len() > 0,
{
    lemma_solid_has_tabs(tree);
}

/// Giving a split another share moves no pane.
pub proof fn resizing_moves_no_pane(
    tree: PaneTree,
    split: Seq<usize>,
    share: Float32,
    path: Seq<usize>,
)
    requires
        widths_fit(tree),
    ensures
        pane_at(with_ratio(tree, split, share), path) == pane_at(tree, path),
        widths_fit(with_ratio(tree, split, share)),
    decreases split.len(),
{
    if let Some(PaneTree::Split { beside, parts, ratio }) = node_at(tree, split) {
        let new = PaneTree::Split { beside, parts, ratio: share };
        if split.len() > 0 {
            let at = split[0] as int;
            let inner = tree->parts[at];
            lemma_part_width(tree->parts, at);
            if path.len() > 0 && path[0] == split[0] {
                resizing_moves_no_pane(inner, split.skip(1), share, path.skip(1));
            } else {
                resizing_moves_no_pane(inner, split.skip(1), share, Seq::empty());
            }
            let after = replaced(inner, split.skip(1), new);
            let all = tree->parts.update(at, after);
            assert forall|i: int| 0 <= i < all.len() implies widths_fit(#[trigger] all[i]) by {
                if i != at {
                    lemma_part_width(tree->parts, i);
                }
            }
            lemma_all_fit(all);
        }
    }
}

/// Whether every split of the layout has a part.
pub fn is_filled(layout: &PaneLayout) -> (r: bool)
    ensures
        r == solid(layout.tree()),
    decreases layout, 0int,
{
    match layout {
        PaneLayout::Single(_) => true,
        PaneLayout::Horizontal(children, ratio) => {
            proof {
                lemma_horizontal(*children, *ratio);
            }
            children.len() > 0 && all_filled(children)
        },
        PaneLayout::Vertical(children, ratio) => {
            proof {
                lemma_vertical(*children, *ratio);
            }
            children.len() > 0 && all_filled(children)
        },
    }
}

/// Whether a list holds the text.
pub fn holds_id(ids: &Vec<String>, id: &str) -> (r: bool)
    ensures
        r == texts(ids@).contains(id@),
{
    let mut i: usize = 0;
    while i < ids.len()
        invariant
            i <= ids.len(),
            forall|k: int| 0 <= k < i ==> (#[trigger] ids@[k])@ != id@,
        decreases ids.len() - i,
    {
        if same_text(ids[i].as_str(), id) {
            assert(texts(ids@)[i as int] == id@);
            return true;
        }
        i += 1;
    }
    proof {
        if texts(ids@).contains(id@) {
            let k = choose|k: int| 0 <= k < texts(ids@).len() && texts(ids@)[k] == id@;
            assert(ids@[k]@ == id@);
        }
    }
    false
}

fn copy_all(layouts: &Vec<PaneLayout>) -> (r: Vec<PaneLayout>)
    ensures
        trees(r@) == trees(layouts@),
    decreases layouts@, 1int,
{
    let mut r: Vec<PaneLayout> = Vec::new();
    let ghost parts = trees(layouts@);
    let mut i: usize = 0;
    while i < layouts.len()
        invariant
            i <= layouts.len(),
            parts == trees(layouts@),
            trees(r@) =~= parts.take(i as int),
        decreases layouts.len() - i,
    {
        let ghost before = r@;
        let copy = copy_layout(&layouts[i]);
        r.push(copy);
        assert(trees(r@) =~= trees(before).push(copy.tree()));
        assert(parts.take(i + 1) =~= parts.take(i as int).push(parts[i as int]));
        i += 1;
    }
    assert(parts.take(i as int) =~= parts);
    r
}

fn copy_layout(layout: &PaneLayout) -> (r: PaneLayout)
    ensures
        r.tree() == layout.tree(),
    decreases layout, 0int,
{
    match layout {
        PaneLayout::Single(tab) => PaneLayout::Single(tab.clone()),
        PaneLayout::Horizontal(children, ratio) => {
            let copies = copy_all(children);
            proof {
                lemma_horizontal(*children, *ratio);
                lemma_horizontal(copies, *ratio);
            }
            PaneLayout::Horizontal(copies, *ratio)
        },
        PaneLayout::Vertical(children, ratio) => {
            let copies = copy_all(children);
            proof {
                lemma_vertical(*children, *ratio);
                lemma_vertical(copies, *ratio);
            }
            PaneLayout::Vertical(copies, *ratio)
        },
    }
}

impl Clone for PaneLayout {
    fn clone(&self) -> (r: Self)
        ensures
            r.tree() == self.tree(),
    {
        copy_layout(self)
    }
}

/// Whether the split `k` steps along a path runs in a direction, and has a part on
/// that side of the one through which the path goes.
pub open spec fn has_side(tree: PaneTree, path: Seq<usize>, k: int, direction: Direction) -> bool {
    &&& 0 <= k < path.len()
    &&& node_at(tree, path.take(k)) matches Some(PaneTree::Split { beside, parts, ratio }) && (
    match direction {
        Direction::Left => beside && path[k] > 0,
        Direction::Right => beside && path[k] + 1 < parts.len(),
        Direction::Up => !beside && path[k] > 0,
        Direction::Down => !beside && path[k] + 1 < parts.len(),
    })
}

proof fn lemma_side_inside(tree: PaneTree, path: Seq<usize>, k: int, direction: Direction)
    requires
        1 <= k < path.len(),
        tree is Split,
        path[0] < tree->parts.len(),
    ensures
        has_side(tree, path, k, direction) == has_side(
            tree->parts[path[0] as int],
            path.skip(1),
            k - 1,
            direction,
        ),
{
    assert(path.take(k)[0] == path[0]);
    assert(path.take(k).skip(1) =~= path.skip(1).take(k - 1));
    assert(path.skip(1)[k - 1] == path[k]);
}

/// From a pane one can go in a direction exactly where some split on the way to it runs
/// that way and has a part on that side. The innermost of these is where the way
/// turns: up to there it is the path to the pane; then it goes to the part right before,
/// for left and up, or right after, for right and down; and further to that part's first
/// pane, or to the first pane within its own part of the place that the path had.
pub proof fn going_turns_at_the_innermost_split_with_a_side(
    tree: PaneTree,
    path: Seq<usize>,
    direction: Direction,
) -> (turn: int)
    requires
        node_at(tree, path) is Some,
        forall|k: int| 0 <= k < path.len() ==> #[trigger] path[k] < i32::MAX,
    ensures
        adjacent(tree, path, direction) is Some <==> exists|k: int|
            #[trigger] has_side(tree, path, k, direction),
        adjacent(tree, path, direction) matches Some(found) ==> {
            let next = if direction is Left || direction is Up {
                path[turn] - 1
            } else {
                path[turn] + 1
            };
            &&& has_side(tree, path, turn, direction)
            &&& forall|k: int| turn < k ==> !#[trigger] has_side(tree, path, k, direction)
            &&& found.len() > turn
            &&& found.take(turn) == path.take(turn)
            &&& found[turn] == next
            &&& found.skip(turn + 1) == if turn + 1 < path.len() {
                leaf_near(node_at(tree, path.take(turn))->Some_0->parts[next], path[turn + 1] as nat)
            } else {
                first_leaf(node_at(tree, path.take(turn))->Some_0->parts[next])
            }
        },
    decreases path.len(),
{
    if path.len() == 0 {
        0
    } else {
        let parts = tree->parts;
        let rest = path.skip(1);
        let inside = parts[path[0] as int];
        assert(path.take(0) =~= Seq::empty());
        assert forall|k: int| 0 <= k < rest.len() implies #[trigger] rest[k] < i32::MAX by {
            assert(rest[k] == path[k + 1]);
        }
        let inner = going_turns_at_the_innermost_split_with_a_side(inside, rest, direction);
        assert forall|k: int| k >= 1 implies #[trigger] has_side(tree, path, k, direction)
            == has_side(inside, rest, k - 1, direction) by {
            if k < path.len() {
                lemma_side_inside(tree, path, k, direction);
            }
        }
        assert forall|k: int| #[trigger] has_side(inside, rest, k, direction) implies has_side(
            tree,
            path,
            k + 1,
            direction,
        ) by {}
        let next = next_part(tree->beside, parts.len(), path[0], direction);
        assert(narrow_index(path[0]) == path[0]);
        assert(next is Some <==> has_side(tree, path, 0, direction));
        if path.len() > 1 && adjacent(inside, rest, direction) is Some {
            let found = adjacent(tree, path, direction)->Some_0;
            let within = adjacent(inside, rest, direction)->Some_0;
            assert(found == seq![path[0]] + within);
            assert(has_side(inside, rest, inner, direction));
            assert(has_side(tree, path, inner + 1, direction));
            assert(found.take(inner + 1) =~= seq![path[0]] + within.take(inner));
            assert(path.take(inner + 1) =~= seq![path[0]] + rest.take(inner));
            assert(path.take(inner + 1)[0] == path[0]);
            assert(path.take(inner + 1).skip(1) =~= rest.take(inner));
            assert(found.skip(inner + 2) =~= within.skip(inner + 1));
            assert forall|k: int| inner + 1 < k implies !#[trigger] has_side(
                tree,
                path,
                k,
                direction,
            ) by {
                assert(!has_side(inside, rest, k - 1, direction));
            }
            inner + 1
        } else {
            if path.len() == 1 {
                assert(adjacent(inside, rest, direction) is None);
            }
            assert forall|k: int| 0 < k implies !#[trigger] has_side(tree, path, k, direction) by {
                if k < path.len() {
                    assert(!has_side(inside, rest, k - 1, direction));
                }
            }
            if let Some(found) = adjacent(tree, path, direction) {
                assert(found.take(0) =~= path.take(0));
                assert(has_side(tree, path, 0, direction));
                let n = next->Some_0;
                if path.len() == 1 {
                    assert(found.skip(1) =~= first_leaf(parts[n]));
                } else {
                    assert(found.skip(1) =~= leaf_near(parts[n], path[1] as nat));
                }
            } else {
                assert(next is None);
                assert forall|k: int| !#[trigger] has_side(tree, path, k, direction) by {}
            }
            0
        }
    }
}

/// The first pane is reached through first parts only.
pub proof fn the_first_pane_is_reached_through_first_parts(tree: PaneTree)
    requires
        solid(tree),
    ensures
        pane_at(tree, first_leaf(tree)) is Some,
        pane_at(tree, first_leaf(tree)) == Some(pane_tabs(tree)[0]),
        pane_tabs(tree).len() > 0,
        forall|k: int| 0 <= k < first_leaf(tree).len() ==> #[trigger] first_leaf(tree)[k] == 0,
    decreases tree,
{
    if let PaneTree::Split { beside, parts, ratio } = tree {
        lemma_part_solid(parts, 0);
        the_first_pane_is_reached_through_first_parts(parts[0]);
        let path = first_leaf(tree);
        assert(path.skip(1) =~= first_leaf(parts[0]));
        assert forall|k: int| 0 <= k < path.len() implies #[trigger] path[k] == 0 by {
            if k > 0 {
                assert(path[k] == first_leaf(parts[0])[k - 1]);
            }
        }
        lemma_first_tab(parts);
    }
}

proof fn lemma_first_tab(parts: Seq<PaneTree>)
    requires
        parts.len() > 0,
        pane_tabs(parts[0]).len() > 0,
    ensures
        part_tabs(parts).len() > 0,
        part_tabs(parts)[0] == pane_tabs(parts[0])[0],
    decreases parts.len(),
{
    if parts.len() == 1 {
        assert(parts.drop_last() =~= Seq::empty());
        assert(part_tabs(parts.drop_last()) =~= Seq::empty());
        assert(part_tabs(parts) =~= pane_tabs(parts[0]));
    } else {
        lemma_first_tab(parts.drop_last());
    }
}

/// The pane near an index is the first one of that part, and of the last part where the
/// index is past the end.
pub proof fn the_pane_near_an_index_is_in_that_part(
    beside: bool,
    parts: Seq<PaneTree>,
    ratio: Float32,
    index: usize,
)
    requires
        0 < parts.len() <= usize::MAX,
    ensures
        ({
            let near = leaf_near(PaneTree::Split { beside, parts, ratio }, index as nat);
            &&& near.len() > 0
            &&& index < parts.len() ==> near == seq![index] + first_leaf(parts[index as int])
            &&& index >= parts.len() ==> near[0] == parts.len() - 1 && near.skip(1) == first_leaf(
                parts.last(),
            )
        }),
{
    let near = leaf_near(PaneTree::Split { beside, parts, ratio }, index as nat);
    assert(near.skip(1) =~= first_leaf(parts[near[0] as int]));
}

/// Of two panes next to each other in a split, one step leads from the first to the
/// second, and the step the other way leads back: right and left where they stand beside
/// each other, down and up where they stand below each other.
pub proof fn a_step_and_the_step_back_return(
    tree: PaneTree,
    path: Seq<usize>,
    index: usize,
)
    requires
        node_at(tree, path) matches Some(PaneTree::Split { beside, parts, ratio }) && index + 1
            < parts.len() && parts[index as int] is Pane && parts[index + 1] is Pane,
        forall|k: int| 0 <= k < path.len() ==> #[trigger] path[k] < i32::MAX,
        index + 1 < i32::MAX,
    ensures
        ({
            let there = path.push((index + 1) as usize);
            let here = path.push(index);
            if node_at(tree, path)->Some_0->beside {
                &&& adjacent(tree, here, Direction::Right) == Some(there)
                &&& adjacent(tree, there, Direction::Left) == Some(here)
            } else {
                &&& adjacent(tree, here, Direction::Down) == Some(there)
                &&& adjacent(tree, there, Direction::Up) == Some(here)
            }
        }),
{
    let there = path.push((index + 1) as usize);
    let here = path.push(index);
    let n = path.len() as int;
    let split = node_at(tree, path)->Some_0;
    let (on, back) = if split->beside {
        (Direction::Right, Direction::Left)
    } else {
        (Direction::Down, Direction::Up)
    };
    assert(here.take(n) =~= path);
    assert(there.take(n) =~= path);
    lemma_one_further(tree, path, index);
    lemma_one_further(tree, path, (index + 1) as usize);
    assert(has_side(tree, here, n, on));
    assert(has_side(tree, there, n, back));
    let a = going_turns_at_the_innermost_split_with_a_side(tree, here, on);
    let b = going_turns_at_the_innermost_split_with_a_side(tree, there, back);
    let x = adjacent(tree, here, on)->Some_0;
    let y = adjacent(tree, there, back)->Some_0;
    assert(a == n);
    assert(b == n);
    assert(x =~= x.take(n) + seq![x[n]] + x.skip(n + 1));
    assert(y =~= y.take(n) + seq![y[n]] + y.skip(n + 1));
    assert(x =~= there);
    assert(y =~= here);
}

proof fn lemma_one_further(tree: PaneTree, path: Seq<usize>, index: usize)
    requires
        node_at(tree, path) matches Some(PaneTree::Split { beside, parts, ratio }) && index
            < parts.len(),
    ensures
        node_at(tree, path.push(index)) == Some(
            node_at(tree, path)->Some_0->parts[index as int],
        ),
    decreases path.len(),
{
    let longer = path.push(index);
    if path.len() > 0 {
        lemma_one_further(tree->parts[path[0] as int], path.skip(1), index);
        assert(longer.skip(1) =~= path.skip(1).push(index));
        assert(longer[0] == path[0]);
    } else {
        assert(longer.skip(1) =~= Seq::empty());
        assert(longer[0] == index);
        assert(node_at(tree->parts[index as int], Seq::empty()) == Some(
            tree->parts[index as int],
        ));
    }
}

/// What was put in place stands there, and every path that does not lead through that
/// place leads where it did.
pub proof fn what_is_put_in_place_stands_there(
    tree: PaneTree,
    path: Seq<usize>,
    new: PaneTree,
    other: Seq<usize>,
)
    requires
        node_at(tree, path) is Some,
    ensures
        node_at(replaced(tree, path, new), path) == Some(new),
        (exists|k: int| 0 <= k < path.len() && k < other.len() && path[k] != other[k]) ==> node_at(
            replaced(tree, path, new),
            other,
        ) == node_at(tree, other),
    decreases path.len(),
{
    if path.len() > 0 {
        let i = path[0] as int;
        let inside = tree->parts[i];
        what_is_put_in_place_stands_there(inside, path.skip(1), new, other.skip(1));
        if exists|k: int| 0 <= k < path.len() && k < other.len() && path[k] != other[k] {
            let k = choose|k: int| 0 <= k < path.len() && k < other.len() && path[k] != other[k];
            if k > 0 && other[0] == path[0] {
                assert(path.skip(1)[k - 1] == path[k]);
                assert(other.skip(1)[k - 1] == other[k]);
            }
        }
    }
}

/// A pane that is split stays, and the new one stands on the side that was named: the
/// step in that direction leads from the old pane to the new one. Both get the same
/// share.
pub proof fn a_new_pane_stands_on_the_side_named(
    tree: PaneTree,
    path: Seq<usize>,
    new: Seq<char>,
    direction: Direction,
)
    requires
        pane_at(tree, path) is Some,
        forall|k: int| 0 <= k < path.len() ==> #[trigger] path[k] < i32::MAX,
    ensures
        ({
            let current = pane_at(tree, path)->Some_0;
            let after = replaced(tree, path, split_of(current, new, direction));
            let there = path.push(new_place(direction));
            let here = path.push((1 - new_place(direction)) as usize);
            &&& new_place(direction) <= 1
            &&& pane_at(after, there) == Some(new)
            &&& pane_at(after, here) == Some(current)
            &&& adjacent(after, here, direction) == Some(there)
            &&& node_at(after, path) matches Some(PaneTree::Split { beside, parts, ratio })
                && parts.len() == 2 && ratio.bits == 0x3f00_0000
        }),
{
    let current = pane_at(tree, path)->Some_0;
    let split = split_of(current, new, direction);
    let after = replaced(tree, path, split);
    what_is_put_in_place_stands_there(tree, path, split, path);
    lemma_one_further(after, path, 0);
    lemma_one_further(after, path, 1);
    a_step_and_the_step_back_return(after, path, 0);
}

/// A new share is given to the split that was named, whose parts stay as they are; no
/// pane goes or comes, and no other split changes.
pub proof fn only_the_share_named_changes(
    tree: PaneTree,
    path: Seq<usize>,
    share: Float32,
    other: Seq<usize>,
)
    requires
        node_at(tree, path) is Some,
    ensures
        ({
            let after = with_ratio(tree, path, share);
            &&& node_at(tree, path) matches Some(PaneTree::Split { beside, parts, ratio })
                ==> node_at(after, path) == Some(PaneTree::Split { beside, parts, ratio: share })
            &&& node_at(tree, path) matches Some(PaneTree::Pane { tab }) ==> after == tree
            &&& pane_at(after, other) == pane_at(tree, other)
            &&& other != path ==> match node_at(after, other) {
                Some(PaneTree::Split { beside, parts, ratio }) => node_at(tree, other) matches Some(
                    PaneTree::Split { beside: b, parts: ps, ratio: r },
                ) && r == ratio && b == beside && ps.len() == parts.len(),
                _ => !(node_at(tree, other) matches Some(PaneTree::Split { .. })),
            }
        }),
    decreases path.len(),
{
    let after = with_ratio(tree, path, share);
    if path.len() == 0 {
        if other.len() == 0 {
            assert(other =~= path);
        } else if let PaneTree::Split { beside, parts, ratio } = tree {
            assert(after == PaneTree::Split { beside, parts, ratio: share });
        }
    } else if let Some(PaneTree::Split { .. }) = node_at(tree, path) {
        let i = path[0] as int;
        let inside = with_ratio(tree->parts[i], path.skip(1), share);
        assert(after == PaneTree::Split {
            beside: tree->beside,
            parts: tree->parts.update(i, inside),
            ratio: tree->ratio,
        });
        assert(node_at(after, path) == node_at(inside, path.skip(1)));
        if other.len() > 0 && other[0] == path[0] {
            assert(node_at(after, other) == node_at(inside, other.skip(1)));
        }
        only_the_share_named_changes(tree->parts[i], path.skip(1), share, other.skip(1));
        if other.len() > 0 && other != path && other[0] == path[0] {
            assert(path =~= seq![path[0]] + path.skip(1));
            assert(other =~= seq![other[0]] + other.skip(1));
            assert(other.skip(1) != path.skip(1));
        }
    }
}

/// A share between one tenth and nine tenths is kept as it is, a smaller one becomes one
/// tenth and a larger one nine tenths.
pub proof fn a_share_leaves_room_for_both_parts(share: Float32)
    ensures
        0x3dcc_cccd <= share.bits <= 0x3f66_6666 ==> kept_share(share) == share,
        share.bits < 0x3dcc_cccd ==> kept_share(share).bits == 0x3dcc_cccd,
        0x8000_0000 <= share.bits <= 0xff80_0000 ==> kept_share(share).bits == 0x3dcc_cccd,
        0x3f66_6666 < share.bits <= 0x7f80_0000 ==> kept_share(share).bits == 0x3f66_6666,
{
}

/// Each direction goes by its own name.
pub proof fn directions_go_by_their_names(name: Seq<char>)
    ensures
        direction_named(name) == Some(Direction::Left) <==> name == "left"@,
        direction_named(name) == Some(Direction::Right) <==> name == "right"@,
        direction_named(name) == Some(Direction::Up) <==> name == "up"@,
        direction_named(name) == Some(Direction::Down) <==> name == "down"@,
{
    reveal_strlit("left");
    reveal_strlit("right");
    reveal_strlit("up");
    reveal_strlit("down");
    assert("left"@[0] != "right"@[0]);
    assert("left"@.len() != "up"@.len());
    assert("left"@[0] != "down"@[0]);
    assert("right"@.len() != "up"@.len());
    assert("right"@[0] != "down"@[0]);
    assert("up"@.len() != "down"@.len());
}

/// Whether every split has at least two parts.
pub open spec fn well_split(tree: PaneTree) -> bool
    decreases tree,
{
    match tree {
        PaneTree::Pane { tab } => true,
        PaneTree::Split { beside, parts, ratio } => parts.len() >= 2 && all_well_split(parts),
    }
}

pub open spec fn all_well_split(parts: Seq<PaneTree>) -> bool
    decreases parts,
{
    parts.len() == 0 || (all_well_split(parts.drop_last()) && well_split(parts.last()))
}

proof fn lemma_part_well_split(parts: Seq<PaneTree>, i: int)
    requires
        all_well_split(parts),
        0 <= i < parts.len(),
    ensures
        well_split(parts[i]),
    decreases parts.len(),
{
    if i < parts.len() - 1 {
        lemma_part_well_split(parts.drop_last(), i);
    }
}

proof fn lemma_tab_of_a_part(parts: Seq<PaneTree>, i: int, id: Seq<char>)
    requires
        0 <= i < parts.len(),
        pane_tabs(parts[i]).contains(id),
    ensures
        part_tabs(parts).contains(id),
    decreases parts.len(),
{
    let init = part_tabs(parts.drop_last());
    let last = pane_tabs(parts.last());
    let all = part_tabs(parts);
    assert(all == init + last);
    if i < parts.len() - 1 {
        lemma_tab_of_a_part(parts.drop_last(), i, id);
        let k = choose|k: int| 0 <= k < init.len() && init[k] == id;
        assert(all[k] == id);
    } else {
        let k = choose|k: int| 0 <= k < last.len() && last[k] == id;
        assert(all[init.len() + k] == id);
    }
}

proof fn lemma_kept_one_by_one(parts: Seq<PaneTree>, left: Seq<PaneTree>, id: Seq<char>)
    requires
        parts.len() == left.len(),
        forall|i: int| 0 <= i < parts.len() ==> removed(#[trigger] parts[i], id) == Some(left[i]),
    ensures
        kept_parts(parts, id) == left,
    decreases parts.len(),
{
    if parts.len() > 0 {
        let p = parts.drop_last();
        let l = left.drop_last();
        assert forall|i: int| 0 <= i < p.len() implies removed(#[trigger] p[i], id) == Some(
            l[i],
        ) by {
            assert(p[i] == parts[i]);
        }
        lemma_kept_one_by_one(p, l, id);
        assert(removed(parts[parts.len() - 1], id) == Some(left[left.len() - 1]));
        assert(l.push(left.last()) =~= left);
    } else {
        assert(kept_parts(parts, id) =~= left);
    }
}

/// Taking out a tab that no pane shows leaves the arrangement as it is.
pub proof fn taking_out_an_absent_tab_changes_nothing(tree: PaneTree, id: Seq<char>)
    requires
        well_split(tree),
        !pane_tabs(tree).contains(id),
    ensures
        without_tab(tree, id) == tree,
        removed(tree, id) == Some(tree),
    decreases tree,
{
    match tree {
        PaneTree::Pane { tab } => {
            assert(pane_tabs(tree)[0] == tab);
        },
        PaneTree::Split { beside, parts, ratio } => {
            assert forall|i: int| 0 <= i < parts.len() implies removed(#[trigger] parts[i], id)
                == Some(parts[i]) by {
                lemma_part_well_split(parts, i);
                if pane_tabs(parts[i]).contains(id) {
                    lemma_tab_of_a_part(parts, i, id);
                }
                taking_out_an_absent_tab_changes_nothing(parts[i], id);
            }
            lemma_kept_one_by_one(parts, parts, id);
        },
    }
}

/// Closing the pane that a split brought gives back the arrangement before the split.
pub proof fn closing_the_new_pane_undoes_the_split(
    tree: PaneTree,
    path: Seq<usize>,
    new: Seq<char>,
    direction: Direction,
)
    requires
        well_split(tree),
        pane_at(tree, path) is Some,
        !pane_tabs(tree).contains(new),
    ensures
        ({
            let current = pane_at(tree, path)->Some_0;
            let after = replaced(tree, path, split_of(current, new, direction));
            &&& without_tab(after, new) == tree
            &&& removed(after, new) == Some(tree)
        }),
    decreases path.len(),
{
    let current = pane_at(tree, path)->Some_0;
    let split = split_of(current, new, direction);
    let after = replaced(tree, path, split);
    if path.len() == 0 {
        assert(tree == PaneTree::Pane { tab: current });
        assert(pane_tabs(tree)[0] == current);
        let parts = split->parts;
        let old = PaneTree::Pane { tab: current };
        assert(removed(old, new) == Some(old));
        assert(removed(PaneTree::Pane { tab: new }, new) is None);
        let none = Seq::<PaneTree>::empty();
        assert(parts.drop_last().drop_last() =~= none);
        assert(kept_parts(none, new) =~= none);
        assert(kept_parts(parts.drop_last(), new) =~= if direction.back() {
            none
        } else {
            seq![old]
        }) by {
            reveal_with_fuel(kept_parts, 2);
        }
        assert(kept_parts(parts, new) =~= seq![old]);
    } else {
        let parts = tree->parts;
        let k = path[0] as int;
        let inside = parts[k];
        lemma_part_well_split(parts, k);
        if pane_tabs(inside).contains(new) {
            lemma_tab_of_a_part(parts, k, new);
        }
        closing_the_new_pane_undoes_the_split(inside, path.skip(1), new, direction);
        let changed = parts.update(k, replaced(inside, path.skip(1), split));
        assert forall|i: int| 0 <= i < changed.len() implies removed(#[trigger] changed[i], new)
            == Some(parts[i]) by {
            if i != k {
                lemma_part_well_split(parts, i);
                if pane_tabs(parts[i]).contains(new) {
                    lemma_tab_of_a_part(parts, i, new);
                }
                taking_out_an_absent_tab_changes_nothing(parts[i], new);
            }
        }
        lemma_kept_one_by_one(changed, parts, new);
    }
}

/// A part that is closed whole leaves the others of its split as they are, in the split's
/// direction and with its share; a single one that is left takes the place of the split.
pub proof fn closing_a_part_leaves_the_others(
    beside: bool,
    parts: Seq<PaneTree>,
    ratio: Float32,
    k: int,
    id: Seq<char>,
)
    requires
        0 <= k < parts.len(),
        parts[k] == (PaneTree::Pane { tab: id }),
        forall|i: int| 0 <= i < parts.len() ==> well_split(#[trigger] parts[i]),
        forall|i: int|
            0 <= i < parts.len() && i != k ==> !pane_tabs(#[trigger] parts[i]).contains(id),
        parts.len() >= 2,
    ensures
        ({
            let left = without_tab(PaneTree::Split { beside, parts, ratio }, id);
            &&& parts.len() > 2 ==> left == (PaneTree::Split {
                beside,
                parts: parts.remove(k),
                ratio,
            })
            &&& parts.len() == 2 ==> left == parts[1 - k]
        }),
{
    assert(parts.take(parts.len() as int) =~= parts);
    lemma_kept_but_one(parts, k, id, parts.len() as int);
}

proof fn lemma_kept_but_one(parts: Seq<PaneTree>, k: int, id: Seq<char>, n: int)
    requires
        0 <= k < parts.len(),
        0 <= n <= parts.len(),
        parts[k] == (PaneTree::Pane { tab: id }),
        forall|i: int| 0 <= i < parts.len() ==> well_split(#[trigger] parts[i]),
        forall|i: int|
            0 <= i < parts.len() && i != k ==> !pane_tabs(#[trigger] parts[i]).contains(id),
    ensures
        kept_parts(parts.take(n), id) == if k < n {
            parts.take(n).remove(k)
        } else {
            parts.take(n)
        },
    decreases n,
{
    let part = parts.take(n);
    if n > 0 {
        lemma_kept_but_one(parts, k, id, n - 1);
        assert(part.drop_last() =~= parts.take(n - 1));
        let last = parts[n - 1];
        assert(part.last() == last);
        if n - 1 == k {
            assert(removed(last, id) is None);
            assert(part.remove(k) =~= parts.take(n - 1));
        } else {
            assert(well_split(parts[n - 1]));
            taking_out_an_absent_tab_changes_nothing(last, id);
            if k < n - 1 {
                assert(part.remove(k) =~= parts.take(n - 1).remove(k).push(last));
            } else {
                assert(part =~= parts.take(n - 1).push(last));
            }
        }
    } else {
        assert(kept_parts(part, id) =~= part);
    }
}

} // verus!
