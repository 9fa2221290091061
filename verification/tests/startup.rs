//! Startup policy: hook registration outcomes, retry backoff, settings path.

use key_overlay::hook::{decide_startup, retry_backoff_ms, StartupDecision, FAILURE_EXIT_CODE};
use key_overlay::settings::{on_focus_poll, should_autosave};
use key_overlay::{key_overlay_setting_path, SETTING_FILE_NAME};

#[test]
fn hook_failure_is_surfaced_not_crashed() {
    // A refused registration deterministically yields the dialog-and-exit
    // decision with a non-zero status; a registered hook runs the pipeline.
    assert_eq!(decide_startup(false), StartupDecision::FailDialog);
    assert_eq!(decide_startup(true), StartupDecision::Run);
    assert_ne!(FAILURE_EXIT_CODE, 0);
}

#[test]
fn retry_backoff_doubles_and_gives_up() {
    assert_eq!(retry_backoff_ms(0, 5, 100), Some(100));
    assert_eq!(retry_backoff_ms(1, 5, 100), Some(200));
    assert_eq!(retry_backoff_ms(2, 5, 100), Some(400));
    assert_eq!(retry_backoff_ms(4, 5, 100), Some(1600));
    // Attempts are bounded: past the limit the caller gives up.
    assert_eq!(retry_backoff_ms(5, 5, 100), None);
    assert_eq!(retry_backoff_ms(100, 5, 100), None);
    // The delay saturates instead of overflowing.
    assert_eq!(retry_backoff_ms(63, 64, u64::MAX), Some(u64::MAX));
    // A zero base stays zero.
    assert_eq!(retry_backoff_ms(10, 20, 0), Some(0));
}

#[test]
fn autosave_fires_after_interval() {
    assert!(!should_autosave(1000, 500, 600));
    assert!(!should_autosave(1100, 500, 600));
    assert!(should_autosave(1101, 500, 600));
    // A clock that went backwards never forces a save.
    assert!(!should_autosave(400, 500, 600));
}

#[test]
fn focus_loss_saves_exactly_once() {
    // Losing focus: changed, save.
    assert_eq!(on_focus_poll(true, false), (true, true));
    // Gaining focus: changed, no save.
    assert_eq!(on_focus_poll(false, true), (true, false));
    // Steady states: unchanged, no save.
    assert_eq!(on_focus_poll(true, true), (false, false));
    assert_eq!(on_focus_poll(false, false), (false, false));
}

#[test]
fn setting_path_joins_fixed_file_name() {
    assert_eq!(SETTING_FILE_NAME, "setting.json");
    let path = key_overlay_setting_path("/home/user/overlay");
    assert_eq!(path, "/home/user/overlay/setting.json");
    let path = key_overlay_setting_path("");
    assert_eq!(path, "/setting.json");
}
