//! Clicks into a terminal.
use vstd::prelude::*;

use crate::text::{option_text, same_text};
use crate::workspace::{Desk, Workspace};

verus! {

impl Desk {
    /// Whether the search bar takes a click.
    pub open spec fn search_takes(self, in_search_bar: bool) -> bool {
        self.search.active && in_search_bar
    }

    /// The pane that was clicked, if any, is in front.
    pub open spec fn clicked(self, in_search_bar: bool, pane: Option<Seq<char>>) -> Desk {
        if self.search_takes(in_search_bar) {
            self
        } else {
            match pane {
                Some(id) => if self.active_tab == Some(id) {
                    self
                } else {
                    self.focused(id)
                },
                None => self,
            }
        }
    }
}

impl Workspace {
    /// Brings the pane that was clicked to the front, unless the search bar takes the
    /// click. Tells whether the terminal does.
    pub fn focus_terminal(&mut self, in_search_bar: bool, pane: &Option<String>) -> (r: bool)
        ensures
            final(self)@ == old(self)@.clicked(in_search_bar, option_text(*pane)),
            r == !old(self)@.search_takes(in_search_bar),
    {
        if self.search.active && in_search_bar {
            return false;
        }
        if let Some(id) = pane {
            let same: bool = match &self.active_tab {
                Some(active) => same_text(active.as_str(), id.as_str()),
                None => false,
            };
            if !same {
                self.focus_pane_with_id(id.as_str());
            }
        }
        true
    }
}

/// What a click into a terminal does.
#[derive(Debug)]
pub enum ClickAction {
    Nothing,
    /// Open the link under the pointer.
    OpenUrl(String),
    /// Begin a selection, after the selected text, if any, went to the clipboard and was
    /// dropped.
    Select { copied: Option<String> },
}

/// What a click into a terminal does, where `url` is the link under the pointer and
/// `selection` the selected text. With the platform's key a left click opens a link, and
/// where a right click pastes it copies what is selected.
pub fn on_terminal_click(
    left: bool,
    platform_key: bool,
    url: Option<String>,
    copies: bool,
    selection: Option<String>,
) -> (r: ClickAction)
    ensures
        match r {
            ClickAction::Nothing => !left,
            ClickAction::OpenUrl(link) => left && platform_key && url == Some(link),
            ClickAction::Select { copied } => left && !(platform_key && url is Some) && (
            match copied {
                Some(text) => copies && selection == Some(text) && text@.len() > 0,
                None => !copies || (selection matches Some(text) ==> text@.len() == 0),
            }),
        },
{
    if !left {
        return ClickAction::Nothing;
    }
    if platform_key {
        if let Some(link) = url {
            return ClickAction::OpenUrl(link);
        }
    }
    let mut copied: Option<String> = None;
    if copies {
        if let Some(text) = selection {
            if !text.as_str().is_empty() {
                copied = Some(text);
            }
        }
    }
    ClickAction::Select { copied }
}

} // verus!
