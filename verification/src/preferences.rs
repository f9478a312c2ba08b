//! Preferences that are changed from the window.
use vstd::prelude::*;

use crate::config::{ConfigFile, ConfigStore};
use crate::number::Float32;

verus! {

/// The bits of the least and the greatest size of a terminal's letters, 10 and 24.
pub const LEAST_TERMINAL_SIZE: u32 = 0x4120_0000;

pub const GREATEST_SIZE: u32 = 0x41C0_0000;

/// The bits of the least size of the window's letters, 8.
pub const LEAST_UI_SIZE: u32 = 0x4100_0000;

/// Gives the terminals the size, kept within its limits, and returns what it is. What
/// is no number is stored as the least size.
pub fn change_terminal_font_size(config: &mut ConfigStore, size: Float32) -> (r: Float32)
    ensures
        r == size.clamped(
            (Float32 { bits: LEAST_TERMINAL_SIZE }),
            (Float32 { bits: GREATEST_SIZE }),
        ),
        final(config).cache == (ConfigFile {
            terminal_font_size: r.at_least((Float32 { bits: LEAST_TERMINAL_SIZE })),
            ..old(config).cache
        }),
{
    let kept = size.clamp(
        Float32 { bits: LEAST_TERMINAL_SIZE },
        Float32 { bits: GREATEST_SIZE },
    );
    config.set_terminal_font_size(kept);
    kept
}

/// Gives the window the size, kept within its limits, and returns what it is. What is
/// no number is stored as the least size.
pub fn change_ui_font_size(config: &mut ConfigStore, size: Float32) -> (r: Float32)
    ensures
        r == size.clamped(
            (Float32 { bits: LEAST_UI_SIZE }),
            (Float32 { bits: GREATEST_SIZE }),
        ),
        final(config).cache == (ConfigFile {
            ui_font_size: r.at_least((Float32 { bits: LEAST_UI_SIZE })),
            ..old(config).cache
        }),
{
    let kept = size.clamp(Float32 { bits: LEAST_UI_SIZE }, Float32 { bits: GREATEST_SIZE });
    config.set_ui_font_size(kept);
    kept
}

/// Forgets where the window and its panels were.
pub fn reset_layout(config: &mut ConfigStore)
    ensures
        final(config).cache == (ConfigFile {
            window_bounds: None,
            workspace_panels: None,
            body_panels: None,
            sftp_tree_panels: None,
            sftp_file_columns: None,
            sftp_file_columns_customized: false,
            ..old(config).cache
        }),
{
    config.set_layout_state(None, None, None);
    config.set_sftp_tree_panels(None);
    config.set_sftp_file_columns(None);
    config.set_sftp_file_columns_customized(false);
}

/// The bits of the height of the panel of remote files where none is known, 328.
pub const USUAL_FILES_HEIGHT: u32 = 0x43A4_0000;

/// What becomes of the panel of remote files.
#[derive(Clone, Copy, PartialEq, Eq, Structural, Debug)]
pub struct FilesPanelChange {
    pub minimized: bool,
    /// The height that it had before it was minimized.
    pub previous: Option<Float32>,
    /// The height that it gets back.
    pub restore: Option<Float32>,
}

/// Minimizes the panel of remote files, of which `height` is known where it is
/// shown, or brings it back to the height that it had.
pub fn toggle_sftp_minimized(
    config: &mut ConfigStore,
    minimized: bool,
    height: Option<Float32>,
    previous: Option<Float32>,
) -> (r: FilesPanelChange)
    ensures
        r == (if !minimized {
            (FilesPanelChange {
                minimized: true,
                previous: if height is Some {
                    height
                } else {
                    previous
                },
                restore: None,
            })
        } else {
            (FilesPanelChange {
                minimized: false,
                previous,
                restore: Some(
                    match previous {
                        Some(h) => h,
                        None => (Float32 { bits: USUAL_FILES_HEIGHT }),
                    },
                ),
            })
        }),
        final(config).cache == (ConfigFile {
            sftp_panel_minimized: !minimized,
            ..old(config).cache
        }),
{
    config.set_sftp_panel_minimized(!minimized);
    if !minimized {
        FilesPanelChange {
            minimized: true,
            previous: match height {
                Some(h) => Some(h),
                None => previous,
            },
            restore: None,
        }
    } else {
        let restore = match previous {
            Some(h) => h,
            None => Float32 { bits: USUAL_FILES_HEIGHT },
        };
        FilesPanelChange { minimized: false, previous, restore: Some(restore) }
    }
}

} // verus!
