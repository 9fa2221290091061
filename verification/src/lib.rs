//! A verified core for a real-time keystroke/mouse-activity overlay.
//!
//! The library models the capture pipeline: raw hook payloads are normalized
//! into [`key_message::KeyMessage`] values, handed from the hook thread to the
//! UI thread through a bounded, never-blocking [`channel::EventChannel`], and
//! consumed once per frame by the [`engine::KeyStateEngine`], which maintains
//! per-key press state, decaying visual intensity and rolling keys-per-second
//! windows. [`overlay::OverlaySnapshot`] is the per-frame read-only view handed
//! to the renderer, and [`settings::Settings`] with [`codec`] covers the
//! persisted user configuration. OS hook registration, window management and
//! file I/O live outside the library and talk to it in plain values.

use vstd::prelude::*;

pub mod channel;
pub mod codec;
pub mod engine;
pub mod hook;
pub mod key_message;
pub mod overlay;
pub mod settings;

verus! {

/// File name under which the settings document is persisted, in the
/// process's working directory.
pub const SETTING_FILE_NAME: &'static str = "setting.json";

/// Joins the current working directory (obtained by the caller) with the
/// fixed settings file name, using `/` as the separator.
pub fn key_overlay_setting_path(current_dir: &str) -> (path: String)
    ensures
        path@ == current_dir@ + "/"@ + SETTING_FILE_NAME@,
{
    let mut path = String::from_str(current_dir);
    path.append("/");
    path.append(SETTING_FILE_NAME);
    path
}

} // verus!
