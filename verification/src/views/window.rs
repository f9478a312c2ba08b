//! The window as a whole.
use vstd::prelude::*;

use crate::number::Float32;
use crate::saved::TitleBarStyle;
use crate::text::same_text;
use crate::workspace::closing::first_of;
use crate::workspace::{find_tab, front_tab, tab_with, Desk, TabKind, Workspace};

verus! {

/// What the window shows.
#[derive(Clone, Copy, PartialEq, Eq, Structural, Debug)]
pub struct WindowPlan {
    /// The remote files below the terminals: the tab in front is connected with a
    /// session.
    pub shows_files: bool,
    /// The load of the machine below the terminals.
    pub monitor_below: bool,
    /// Whether the tab in front is connected over SSH.
    pub ssh_connected: bool,
    /// Whether the machine can be asked from the panel below.
    pub interactive: bool,
    pub shows_sidebar: bool,
    /// Whether the tab bar stands in the title bar, and not above the terminals.
    pub tabs_in_title_bar: bool,
}

/// What the window shows of the open terminals.
pub open spec fn plan_of(
    desk: Desk,
    monitoring_position: Seq<char>,
    sidebar_collapsed: bool,
    style: TitleBarStyle,
) -> WindowPlan {
    let shows_files = front_tab(desk) matches Some(tab) && tab.connected && tab.session is Some;
    let ssh_connected = front_tab(desk) matches Some(tab) && tab.kind == TabKind::Ssh
        && tab.connected;
    WindowPlan {
        shows_files,
        monitor_below: monitoring_position == "Bottom"@,
        ssh_connected,
        interactive: shows_files && ssh_connected,
        shows_sidebar: !sidebar_collapsed,
        tabs_in_title_bar: style == TitleBarStyle::Integrated,
    }
}

impl Desk {
    /// Where the tab in front is not open, the first one is in front.
    pub open spec fn front_exists(self) -> Desk {
        match self.active_tab {
            Some(id) => if tab_with(self.tabs, id) is None {
                Desk {
                    active_tab: match first_of(self.tabs) {
                        Some(tab) => Some(tab.id),
                        None => None,
                    },
                    ..self
                }
            } else {
                self
            },
            None => self,
        }
    }
}

/// How far a terminal is scrolled to show what the scroll bar asks for.
#[derive(Clone, Copy, PartialEq, Eq, Structural, Debug)]
pub enum ScrollStep {
    Up(usize),
    Down(usize),
    Stay,
}

/// How far a terminal is scrolled from one offset to another.
pub fn scroll_step(wanted: usize, current: usize) -> (r: ScrollStep)
    ensures
        match r {
            ScrollStep::Up(n) => n > 0 && current + n == wanted,
            ScrollStep::Down(n) => n > 0 && current - n == wanted,
            ScrollStep::Stay => current == wanted,
        },
{
    if wanted > current {
        ScrollStep::Up(wanted - current)
    } else if wanted < current {
        ScrollStep::Down(current - wanted)
    } else {
        ScrollStep::Stay
    }
}

impl Workspace {
    /// Repairs which tab is in front, and plans the window.
    pub fn render(
        &mut self,
        monitoring_position: &str,
        sidebar_collapsed: bool,
        style: TitleBarStyle,
    ) -> (r: WindowPlan)
        ensures
            final(self)@ == old(self)@.front_exists(),
            r == plan_of(final(self)@, monitoring_position@, sidebar_collapsed, style),
    {
        let lost: bool = match &self.active_tab {
            Some(id) => find_tab(&self.tabs, id.as_str()).is_none(),
            None => false,
        };
        if lost {
            assert(self@.tabs.len() == self.tabs@.len());
            if self.tabs.len() > 0 {
                assert(self@.tabs[0] == self.tabs@[0]@);
                self.active_tab = Some(self.tabs[0].id.clone());
            } else {
                self.active_tab = None;
            }
        }
        let shows_files: bool = self.active_ssh_session().is_some();
        let ssh_connected: bool = match &self.active_tab {
            Some(id) => match find_tab(&self.tabs, id.as_str()) {
                Some(i) => {
                    assert(self@.tabs[i as int] == self.tabs@[i as int]@);
                    self.tabs[i].kind == TabKind::Ssh && self.tabs[i].connected
                },
                None => false,
            },
            None => false,
        };
        let integrated: bool = match style {
            TitleBarStyle::Integrated => true,
            TitleBarStyle::Native => false,
        };
        WindowPlan {
            shows_files,
            monitor_below: same_text(monitoring_position, "Bottom"),
            ssh_connected,
            interactive: shows_files && ssh_connected,
            shows_sidebar: !sidebar_collapsed,
            tabs_in_title_bar: integrated,
        }
    }
}

/// The buttons of the window that are drawn here.
#[derive(Clone, Copy, PartialEq, Eq, Structural, Debug)]
pub struct WindowControls {
    /// Whether they are drawn; macOS draws its own but for a full screen.
    pub drawn: bool,
    /// Whether they act on the window through the system.
    pub native_areas: bool,
    /// Whether room is left for those of the system.
    pub leaves_room: bool,
}

/// The buttons of the window that are drawn here.
pub fn render_window_controls(macos: bool, fullscreen: bool) -> (r: WindowControls)
    ensures
        r.drawn == (!macos || fullscreen),
        r.native_areas == !macos,
        r.leaves_room == (macos && !fullscreen),
{
    WindowControls {
        drawn: !macos || fullscreen,
        native_areas: !macos,
        leaves_room: macos && !fullscreen,
    }
}

/// What comes next when a tab is to be scrolled into view.
#[derive(Clone, Copy, PartialEq, Eq, Structural, Debug)]
pub enum TabScroll {
    /// Another scrolling has begun.
    Superseded,
    /// The tab has no place yet: look again in the next frame.
    Retry { retries: u8 },
    GiveUp,
    Animate,
}

/// How often a place for a tab is looked for.
pub const TAB_SCROLL_LAYOUT_RETRY_FRAMES: u8 = 3;

/// The number of a new scrolling.
pub fn next_tab_scroll(id: u64) -> (r: u64)
    ensures
        r == (if id == u64::MAX {
            0
        } else {
            id + 1
        }),
{
    id.wrapping_add(1)
}

/// What comes next when a tab is to be scrolled into view.
pub fn ensure_tab_visible_after_layout(
    current_id: u64,
    id: u64,
    has_place: bool,
    retries: u8,
) -> (r: TabScroll)
    ensures
        r == (if current_id != id {
            TabScroll::Superseded
        } else if has_place {
            TabScroll::Animate
        } else if retries > 0 {
            TabScroll::Retry { retries: (retries - 1) as u8 }
        } else {
            TabScroll::GiveUp
        }),
{
    if current_id != id {
        TabScroll::Superseded
    } else if has_place {
        TabScroll::Animate
    } else if retries > 0 {
        TabScroll::Retry { retries: retries - 1 }
    } else {
        TabScroll::GiveUp
    }
}

/// The bits of the heights of the panel of the remote files: minimized, 24; the least
/// and the greatest one, 180 and 1200; and the usual one, 248.
pub const MINIMIZED_FILES_HEIGHT: u32 = 0x41C0_0000;

pub const LEAST_FILES_HEIGHT: u32 = 0x4334_0000;

pub const GREATEST_FILES_HEIGHT: u32 = 0x4496_0000;

pub const PLANNED_FILES_HEIGHT: u32 = 0x4378_0000;

/// The height of a panel, and between which heights it can be drawn.
#[derive(Clone, Copy, PartialEq, Eq, Structural, Debug)]
pub struct PanelHeight {
    pub height: Float32,
    pub least: Float32,
    pub greatest: Float32,
}

/// The height of the panel of the remote files, by the stored heights of the body's two
/// parts.
pub fn files_panel_height(minimized: bool, stored: &Option<Vec<Float32>>) -> (r: PanelHeight)
    ensures
        minimized ==> r.height.bits == MINIMIZED_FILES_HEIGHT && r.least == r.height && r.greatest
            == r.height,
        !minimized ==> r.least.bits == LEAST_FILES_HEIGHT && r.greatest.bits
            == GREATEST_FILES_HEIGHT && r.height == (match *stored {
            Some(heights) => if heights@.len() > 1 {
                heights@[1]
            } else {
                (Float32 { bits: PLANNED_FILES_HEIGHT })
            },
            None => (Float32 { bits: PLANNED_FILES_HEIGHT }),
        }),
{
    if minimized {
        let bar = Float32 { bits: MINIMIZED_FILES_HEIGHT };
        return PanelHeight { height: bar, least: bar, greatest: bar };
    }
    let mut height = Float32 { bits: PLANNED_FILES_HEIGHT };
    if let Some(heights) = stored {
        if heights.len() > 1 {
            height = heights[1];
        }
    }
    PanelHeight {
        height,
        least: Float32 { bits: LEAST_FILES_HEIGHT },
        greatest: Float32 { bits: GREATEST_FILES_HEIGHT },
    }
}

/// The width of the sidebar, by the stored widths of the window's two parts.
pub fn sidebar_width(stored: &Option<Vec<Float32>>, usual: Float32) -> (r: Float32)
    ensures
        r == (match *stored {
            Some(widths) => if widths@.len() > 0 {
                widths@[0]
            } else {
                usual
            },
            None => usual,
        }),
{
    if let Some(widths) = stored {
        if widths.len() > 0 {
            return widths[0];
        }
    }
    usual
}

/// The width that the sidebar keeps when the window gets another size.
#[derive(Clone, Copy, Debug)]
pub struct SidebarKeeper {
    /// The width and the height of the window when it was last drawn.
    pub last_window: Option<(Float32, Float32)>,
    /// The width that the sidebar had before.
    pub last_width: Option<Float32>,
}

impl SidebarKeeper {
    /// Whether the window has another size than when it was last drawn.
    pub open spec fn resized(self, window: (Float32, Float32)) -> bool {
        match self.last_window {
            Some(last) => !last.0.equals(window.0) || !last.1.equals(window.1),
            None => true,
        }
    }

    /// Takes the size of the window and the width of the sidebar, if it is drawn, and
    /// returns the width that the sidebar gets back.
    pub fn drawn(&mut self, window: (Float32, Float32), width: Option<Float32>) -> (r: Option<
        Float32,
    >)
        ensures
            final(self).last_window == Some(window),
            final(self).last_width == (if width is Some && !old(self).resized(window) {
                width
            } else {
                old(self).last_width
            }),
            r == (match (width, old(self).last_width) {
                (Some(now), Some(kept)) => if old(self).resized(window) && !now.equals(kept) {
                    Some(kept)
                } else {
                    None
                },
                _ => None,
            }),
    {
        let resized: bool = match self.last_window {
            Some(last) => !last.0.is_equal(window.0) || !last.1.is_equal(window.1),
            None => true,
        };
        self.last_window = Some(window);
        match width {
            Some(now) => {
                if !resized {
                    self.last_width = Some(now);
                    return None;
                }
                match self.last_width {
                    Some(kept) => if now.is_equal(kept) {
                        None
                    } else {
                        Some(kept)
                    },
                    None => None,
                }
            },
            None => None,
        }
    }
}

/// A window that is drawn again in the same size gives the sidebar nothing back, and
/// its width is the one to keep.
pub proof fn an_unchanged_window_keeps_its_sidebar(
    keeper: SidebarKeeper,
    window: (Float32, Float32),
)
    requires
        keeper.last_window == Some(window),
        !window.0.nan(),
        !window.1.nan(),
    ensures
        !keeper.resized(window),
{
}

/// Remote files are shown beside a connected session only, and a machine can be looked
/// into only where that session is one over SSH. A tab in front that is gone gives way to
/// the first one.
pub proof fn the_window_shows_what_the_tab_in_front_has(
    desk: Desk,
    position: Seq<char>,
    collapsed: bool,
    style: TitleBarStyle,
    tab: crate::workspace::TabView,
)
    requires
        front_tab(desk) == Some(tab),
    ensures
        ({
            let plan = plan_of(desk, position, collapsed, style);
            &&& plan.shows_files <==> tab.connected && tab.session is Some
            &&& plan.ssh_connected <==> tab.connected && tab.kind == TabKind::Ssh
            &&& plan.interactive <==> tab.connected && tab.session is Some && tab.kind
                == TabKind::Ssh
            &&& plan.shows_sidebar != collapsed
            &&& plan.monitor_below <==> position == "Bottom"@
            &&& plan.tabs_in_title_bar <==> style == TitleBarStyle::Integrated
        }),
        desk.front_exists() == desk,
{
}

/// A tab in front that is gone gives way to the first one; without any tab none is in
/// front.
pub proof fn a_tab_that_is_gone_gives_way(desk: Desk, id: Seq<char>)
    requires
        desk.active_tab == Some(id),
        tab_with(desk.tabs, id) is None,
    ensures
        desk.tabs.len() > 0 ==> desk.front_exists().active_tab == Some(desk.tabs[0].id),
        desk.tabs.len() == 0 ==> desk.front_exists().active_tab is None,
        desk.front_exists() == (Desk { active_tab: desk.front_exists().active_tab, ..desk }),
{
}

/// A window counts as resized where either of its sides changed, and when it is drawn for
/// the first time.
pub proof fn a_window_is_resized_where_a_side_changed(
    keeper: SidebarKeeper,
    last: (Float32, Float32),
    window: (Float32, Float32),
)
    ensures
        keeper.last_window is None ==> keeper.resized(window),
        (keeper.last_window == Some(last) && last.0.place() != window.0.place()) ==> keeper.resized(
            window,
        ),
        (keeper.last_window == Some(last) && last.1.place() != window.1.place()) ==> keeper.resized(
            window,
        ),
        (keeper.last_window == Some(last) && last.0.place() == window.0.place() && last.1.place()
            == window.1.place() && !last.0.nan() && !last.1.nan() && !window.0.nan()
            && !window.1.nan()) ==> !keeper.resized(window),
{
}

} // verus!
