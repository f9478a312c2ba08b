//! Terminal tabs and panes as they are stored.
use vstd::prelude::*;

use crate::number::Float32;
use crate::session::{Session, TextEncoding};

verus! {

/// The place of a window, by the bit patterns of its numbers.
#[derive(Debug, Clone, Copy, PartialEq, Eq, Structural)]
pub enum SavedWindowBounds {
    Fullscreen { x: Float32, y: Float32, width: Float32, height: Float32 },
    Maximized { x: Float32, y: Float32, width: Float32, height: Float32 },
    Windowed { x: Float32, y: Float32, width: Float32, height: Float32 },
}

/// The panes of a group of tabs: one pane, or panes below or beside each other
/// with the share of the first.
#[derive(Debug)]
pub enum SavedPaneLayout {
    Single { tab_id: String },
    Horizontal { children: Vec<SavedPaneLayout>, ratio: Float32 },
    Vertical { children: Vec<SavedPaneLayout>, ratio: Float32 },
}

/// The arrangement of panes: a pane with its tab, or a split with its parts.
pub enum PaneTree {
    Pane { tab: Seq<char> },
    Split { beside: bool, parts: Seq<PaneTree>, ratio: Float32 },
}

impl SavedPaneLayout {
    /// The arrangement that is stored.
    pub open spec fn tree(self) -> PaneTree
        decreases self,
    {
        match self {
            SavedPaneLayout::Single { tab_id } => PaneTree::Pane { tab: tab_id@ },
            SavedPaneLayout::Horizontal { children, ratio } => PaneTree::Split {
                beside: false,
                parts: Seq::new(
                    children@.len(),
                    |i: int|
                        if 0 <= i < children@.len() {
                            children@[i].tree()
                        } else {
                            arbitrary()
                        },
                ),
                ratio,
            },
            SavedPaneLayout::Vertical { children, ratio } => PaneTree::Split {
                beside: true,
                parts: Seq::new(
                    children@.len(),
                    |i: int|
                        if 0 <= i < children@.len() {
                            children@[i].tree()
                        } else {
                            arbitrary()
                        },
                ),
                ratio,
            },
        }
    }

    /// The arrangements of a list of layouts.
    pub open spec fn trees(layouts: Seq<SavedPaneLayout>) -> Seq<PaneTree> {
        layouts.map_values(|l: SavedPaneLayout| l.tree())
    }
}

fn copy_layouts(layouts: &Vec<SavedPaneLayout>) -> (r: Vec<SavedPaneLayout>)
    ensures
        SavedPaneLayout::trees(r@) == SavedPaneLayout::trees(layouts@),
    decreases layouts@, 1int,
{
    let mut r: Vec<SavedPaneLayout> = Vec::new();
    let mut i: usize = 0;
    while i < layouts.len()
        invariant
            i <= layouts.len(),
            SavedPaneLayout::trees(r@) =~= SavedPaneLayout::trees(layouts@).take(i as int),
        decreases layouts.len() - i,
    {
        let ghost before = r@;
        let copy = copy_layout(&layouts[i]);
        r.push(copy);
        assert(SavedPaneLayout::trees(r@) =~= SavedPaneLayout::trees(before).push(copy.tree()));
        assert(SavedPaneLayout::trees(layouts@).take(i + 1) =~= SavedPaneLayout::trees(
            layouts@,
        ).take(i as int).push(layouts@[i as int].tree()));
        i += 1;
    }
    assert(SavedPaneLayout::trees(r@) =~= SavedPaneLayout::trees(layouts@));
    r
}

fn copy_layout(layout: &SavedPaneLayout) -> (r: SavedPaneLayout)
    ensures
        r.tree() == layout.tree(),
    decreases layout, 0int,
{
    match layout {
        SavedPaneLayout::Single { tab_id } => SavedPaneLayout::Single { tab_id: tab_id.clone() },
        SavedPaneLayout::Horizontal { children, ratio } => {
            let copies = copy_layouts(children);
            let r = SavedPaneLayout::Horizontal { children: copies, ratio: *ratio };
            assert(r.tree()->parts =~= SavedPaneLayout::trees(copies@));
            assert(layout.tree()->parts =~= SavedPaneLayout::trees(children@));
            r
        },
        SavedPaneLayout::Vertical { children, ratio } => {
            let copies = copy_layouts(children);
            let r = SavedPaneLayout::Vertical { children: copies, ratio: *ratio };
            assert(r.tree()->parts =~= SavedPaneLayout::trees(copies@));
            assert(layout.tree()->parts =~= SavedPaneLayout::trees(children@));
            r
        },
    }
}

impl Clone for SavedPaneLayout {
    fn clone(&self) -> (r: Self)
        ensures
            r.tree() == self.tree(),
    {
        copy_layout(self)
    }
}

/// A terminal as it is stored.
#[derive(Debug)]
pub enum SavedTerminalTab {
    Local { id: String, cwd: Option<String>, terminal_encoding: TextEncoding },
    Ssh { id: String, session: Session },
    Serial { id: String, session: Session },
}

impl Clone for SavedTerminalTab {
    fn clone(&self) -> (r: Self)
        ensures
            r == *self,
    {
        match self {
            SavedTerminalTab::Local { id, cwd, terminal_encoding } => SavedTerminalTab::Local {
                id: id.clone(),
                cwd: crate::session::clone_option(cwd),
                terminal_encoding: terminal_encoding.clone(),
            },
            SavedTerminalTab::Ssh { id, session } => SavedTerminalTab::Ssh {
                id: id.clone(),
                session: session.clone(),
            },
            SavedTerminalTab::Serial { id, session } => SavedTerminalTab::Serial {
                id: id.clone(),
                session: session.clone(),
            },
        }
    }
}

/// A group of tabs as it is stored.
#[derive(Debug, Clone)]
pub struct SavedTabGroup {
    pub id: String,
    pub title: String,
    pub pane_root: SavedPaneLayout,
    pub tabs: Vec<SavedTerminalTab>,
}

/// All groups of tabs as they are stored.
#[derive(Debug, Clone)]
pub struct SavedTabsState {
    pub groups: Vec<SavedTabGroup>,
    pub active_group: Option<String>,
    pub active_tab: Option<String>,
}

/// Who draws the window's title bar.
#[derive(Debug, Clone, Copy, PartialEq, Eq, Structural)]
pub enum TitleBarStyle {
    Native,
    Integrated,
}

impl Default for TitleBarStyle {
    fn default() -> (r: Self)
        ensures
            r == TitleBarStyle::Integrated,
    {
        TitleBarStyle::Integrated
    }
}

/// The shape of a terminal's cursor.
#[derive(Debug, Clone, Copy, PartialEq, Eq, Structural)]
pub enum CursorStyle {
    Default,
    Blink,
    Beam,
    BeamBlink,
}

impl Default for CursorStyle {
    fn default() -> (r: Self)
        ensures
            r == CursorStyle::Default,
    {
        CursorStyle::Default
    }
}

} // verus!
