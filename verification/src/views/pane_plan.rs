//! How the panes of the group in front are drawn.
use vstd::prelude::*;

use crate::number::Float32;
use crate::panes::{pane_tabs, PaneLayout};
use crate::saved::PaneTree;
use crate::session::{clone_option, TextEncoding};
use crate::text::option_text;
use crate::workspace::{find_tab, front_tab, tab_with, Desk, TabKind, Workspace};

verus! {

/// How much room a part of a split gets.
#[derive(Clone, Copy, PartialEq, Eq, Structural, Debug)]
pub enum Share {
    /// The share itself.
    First(Float32),
    /// What the share leaves.
    Rest(Float32),
    /// As much as each other part.
    Even,
}

/// What is drawn for a layout.
#[derive(Debug)]
pub enum PaneDrawing {
    /// The page that is shown where no terminal is.
    Home,
    /// Nothing: the tab is not open.
    Blank,
    Terminal {
        tab_id: String,
        focused: bool,
        /// Whether the pane has a frame: there are others.
        framed: bool,
        connected: bool,
        disconnected_reason: Option<String>,
    },
    /// Panes beside or below each other; `path` leads to their split, whose splitter
    /// stands before each part but the first.
    Split { beside: bool, path: Vec<usize>, parts: Vec<(Share, PaneDrawing)> },
}

/// The room of the part at an index.
pub open spec fn share_of(count: nat, index: int, ratio: Float32) -> Share {
    if count == 2 {
        if index == 0 {
            Share::First(ratio)
        } else {
            Share::Rest(ratio)
        }
    } else {
        Share::Even
    }
}

/// Whether a drawing shows an arrangement, to which the path leads.
pub open spec fn draws(drawing: PaneDrawing, tree: PaneTree, path: Seq<usize>, desk: Desk) -> bool
    decreases tree,
{
    match tree {
        PaneTree::Pane { tab } => if tab.len() == 0 {
            drawing is Home
        } else {
            match tab_with(desk.tabs, tab) {
                None => drawing is Blank,
                Some(t) => drawing matches PaneDrawing::Terminal {
                    tab_id,
                    focused,
                    framed,
                    connected,
                    disconnected_reason,
                } && tab_id@ == tab && focused == (path == desk.path) && framed == (pane_tabs(
                    desk.root,
                ).len() > 1) && connected == t.connected && option_text(disconnected_reason)
                    == t.disconnected_reason,
            }
        },
        PaneTree::Split { beside, parts, ratio } => drawing matches PaneDrawing::Split {
            beside: b,
            path: p,
            parts: drawn,
        } && b == beside && p@ == path && drawn@.len() == parts.len() && forall|i: int|
            0 <= i < parts.len() ==> (#[trigger] drawn@[i]).0 == share_of(parts.len(), i, ratio)
                && draws(drawn@[i].1, parts[i], path.push(i as usize), desk),
    }
}

fn extended(path: &Vec<usize>, step: usize) -> (r: Vec<usize>)
    ensures
        r@ == path@.push(step),
{
    let mut r = copied(path);
    r.push(step);
    r
}

fn copied(path: &Vec<usize>) -> (r: Vec<usize>)
    ensures
        r@ == path@,
{
    let mut r: Vec<usize> = Vec::new();
    let mut i: usize = 0;
    while i < path.len()
        invariant
            i <= path@.len(),
            r@ =~= path@.take(i as int),
        decreases path.len() - i,
    {
        r.push(path[i]);
        i += 1;
    }
    assert(path@.take(i as int) =~= path@);
    r
}

fn same_path(a: &Vec<usize>, b: &Vec<usize>) -> (r: bool)
    ensures
        r == (a@ == b@),
{
    if a.len() != b.len() {
        return false;
    }
    let mut i: usize = 0;
    while i < a.len()
        invariant
            i <= a@.len(),
            a@.len() == b@.len(),
            forall|k: int| 0 <= k < i ==> #[trigger] a@[k] == b@[k],
        decreases a.len() - i,
    {
        if a[i] != b[i] {
            return false;
        }
        i += 1;
    }
    assert(a@ =~= b@);
    true
}

fn share(count: usize, index: usize, ratio: Float32) -> (r: Share)
    ensures
        r == share_of(count as nat, index as int, ratio),
{
    if count == 2 {
        if index == 0 {
            Share::First(ratio)
        } else {
            Share::Rest(ratio)
        }
    } else {
        Share::Even
    }
}

fn draw_parts(
    workspace: &Workspace,
    children: &Vec<PaneLayout>,
    ratio: Float32,
    path: &Vec<usize>,
) -> (r: Vec<(Share, PaneDrawing)>)
    ensures
        r@.len() == children@.len(),
        forall|i: int|
            0 <= i < children@.len() ==> (#[trigger] r@[i]).0 == share_of(
                children@.len(),
                i,
                ratio,
            ) && draws(r@[i].1, children@[i].tree(), path@.push(i as usize), workspace@),
    decreases children@, 1int,
{
    let mut r: Vec<(Share, PaneDrawing)> = Vec::new();
    let mut i: usize = 0;
    while i < children.len()
        invariant
            i <= children@.len(),
            r@.len() == i,
            forall|k: int|
                0 <= k < i ==> (#[trigger] r@[k]).0 == share_of(children@.len(), k, ratio)
                    && draws(r@[k].1, children@[k].tree(), path@.push(k as usize), workspace@),
        decreases children.len() - i,
    {
        let step = extended(path, i);
        let drawing = render_pane_tree(workspace, &children[i], &step);
        r.push((share(children.len(), i, ratio), drawing));
        i += 1;
    }
    r
}

/// What is drawn for a layout, to which the path leads.
pub fn render_pane_tree(workspace: &Workspace, layout: &PaneLayout, path: &Vec<usize>) -> (r:
    PaneDrawing)
    ensures
        draws(r, layout.tree(), path@, workspace@),
    decreases layout, 0int,
{
    match layout {
        PaneLayout::Single(tab_id) => {
            if tab_id.as_str().is_empty() {
                return PaneDrawing::Home;
            }
            match find_tab(&workspace.tabs, tab_id.as_str()) {
                None => PaneDrawing::Blank,
                Some(i) => {
                    assert(workspace@.tabs[i as int] == workspace.tabs@[i as int]@);
                    let tab = &workspace.tabs[i];
                    PaneDrawing::Terminal {
                        tab_id: tab_id.clone(),
                        focused: same_path(path, &workspace.focused_pane_path),
                        framed: workspace.pane_root.total_panes() > 1,
                        connected: tab.connected,
                        disconnected_reason: clone_option(&tab.disconnected_reason),
                    }
                },
            }
        },
        PaneLayout::Horizontal(children, ratio) => {
            let parts = draw_parts(workspace, children, *ratio, path);
            let r = PaneDrawing::Split { beside: false, path: copied(path), parts };
            assert(layout.tree()->parts =~= crate::panes::trees(children@));
            r
        },
        PaneLayout::Vertical(children, ratio) => {
            let parts = draw_parts(workspace, children, *ratio, path);
            let r = PaneDrawing::Split { beside: true, path: copied(path), parts };
            assert(layout.tree()->parts =~= crate::panes::trees(children@));
            r
        },
    }
}

/// The panel with the terminals.
#[derive(Debug)]
pub struct TerminalPanel {
    pub drawing: PaneDrawing,
    /// Whether the search bar stands above them.
    pub search_bar: bool,
}

impl Workspace {
    /// The panel with the terminals; the page for the start where no tab is in front.
    pub fn render_terminal_panel(&self) -> (r: TerminalPanel)
        ensures
            self.active_tab is Some ==> draws(r.drawing, self@.root, Seq::empty(), self@),
            self.active_tab is None ==> r.drawing is Home,
            r.search_bar == self@.search.active,
    {
        let top: Vec<usize> = Vec::new();
        assert(top@ =~= Seq::empty());
        TerminalPanel {
            drawing: if self.active_tab.is_some() {
                render_pane_tree(self, &self.pane_root, &top)
            } else {
                PaneDrawing::Home
            },
            search_bar: self.search.active,
        }
    }

    /// The tab whose encoding can be chosen, and which it has: the one in front, where it
    /// runs over SSH.
    pub fn render_terminal_encoding_button(&self) -> (r: Option<(String, TextEncoding)>)
        ensures
            match r {
                Some((id, encoding)) => front_tab(self@) matches Some(tab) && tab.kind
                    == TabKind::Ssh && tab.id == id@ && tab.encoding == encoding,
                None => front_tab(self@) matches Some(tab) ==> tab.kind != TabKind::Ssh,
            },
    {
        let i: usize = match &self.active_tab {
            Some(id) => match find_tab(&self.tabs, id.as_str()) {
                Some(i) => i,
                None => {
                    return None;
                },
            },
            None => {
                return None;
            },
        };
        assert(self@.tabs[i as int] == self.tabs@[i as int]@);
        match self.tabs[i].kind {
            TabKind::Ssh => Some((self.tabs[i].id.clone(), self.tabs[i].encoding.clone())),
            _ => None,
        }
    }
}

/// Of two parts the first takes the share and the second what it leaves; more parts are
/// all of one size.
pub proof fn two_parts_take_the_share_and_the_rest(ratio: Float32, count: nat, index: int)
    ensures
        share_of(2, 0, ratio) == Share::First(ratio),
        share_of(2, 1, ratio) == Share::Rest(ratio),
        count != 2 ==> share_of(count, index, ratio) is Even,
{
}

/// Of all terminals that are drawn the one at the end of the path in front is focused, and
/// no other; each has a frame exactly where there are several panes, and tells whether its
/// own tab is connected.
pub proof fn the_terminal_in_front_is_focused(
    drawing: PaneDrawing,
    tree: PaneTree,
    path: Seq<usize>,
    desk: Desk,
)
    requires
        draws(drawing, tree, path, desk),
    ensures
        drawing matches PaneDrawing::Terminal {
            tab_id,
            focused,
            framed,
            connected,
            disconnected_reason,
        } ==> {
            &&& tree == (PaneTree::Pane { tab: tab_id@ })
            &&& focused <==> path == desk.path
            &&& framed <==> pane_tabs(desk.root).len() >= 2
            &&& tab_with(desk.tabs, tab_id@) matches Some(tab) && connected == tab.connected
                && option_text(disconnected_reason) == tab.disconnected_reason
        },
        drawing matches PaneDrawing::Split { beside, path: p, parts } ==> {
            &&& tree matches PaneTree::Split { beside: b, parts: ps, ratio } && b == beside
                && ps.len() == parts@.len()
            &&& p@ == path
            &&& forall|i: int|
                0 <= i < parts@.len() ==> draws(
                    (#[trigger] parts@[i]).1,
                    tree->parts[i],
                    path.push(i as usize),
                    desk,
                )
        },
        drawing is Home <==> (tree matches PaneTree::Pane { tab } && tab.len() == 0),
        drawing is Blank <==> (tree matches PaneTree::Pane { tab } && tab.len() > 0 && tab_with(
            desk.tabs,
            tab,
        ) is None),
{
}

} // verus!
