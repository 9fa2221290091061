//! User-editable configuration: tracked keys, window length, decay rate,
//! colors and layout. Loaded once at startup, mutated only by the settings
//! editor, persisted through [`crate::codec`].

use vstd::prelude::*;

verus! {

/// An RGBA color with 8-bit components.
#[derive(Clone, Copy, PartialEq, Eq, Structural, Debug)]
pub struct UColor32 {
    /// Red component.
    pub r: u8,
    /// Green component.
    pub g: u8,
    /// Blue component.
    pub b: u8,
    /// Alpha component.
    pub a: u8,
}

impl UColor32 {
    /// Opaque white.
    pub fn white() -> (c: UColor32)
        ensures
            c == (UColor32 { r: 255u8, g: 255u8, b: 255u8, a: 255u8 }),
    {
        UColor32 { r: 255, g: 255, b: 255, a: 255 }
    }

    /// Opaque black.
    pub fn black() -> (c: UColor32)
        ensures
            c == (UColor32 { r: 0u8, g: 0u8, b: 0u8, a: 255u8 }),
    {
        UColor32 { r: 0, g: 0, b: 0, a: 255 }
    }

    /// The same color with the alpha component replaced.
    pub fn with_a(self, a: u8) -> (c: UColor32)
        ensures
            c == (UColor32 { r: self.r, g: self.g, b: self.b, a }),
    {
        UColor32 { r: self.r, g: self.g, b: self.b, a }
    }
}

/// Spec-level view of a [`Settings`] value.
#[verifier::ext_equal]
pub ghost struct SettingsModel {
    /// Codes of the tracked keys, in layout order.
    pub tracked_keys: Seq<u32>,
    /// Rolling window length in milliseconds.
    pub window_ms: u64,
    /// Intensity decay per elapsed millisecond.
    pub decay_per_ms: u32,
    /// Highlight color of a pressed key.
    pub key_color: UColor32,
    /// Background color of the overlay.
    pub background_color: UColor32,
    /// Edge length of one key cell, in pixels.
    pub key_size: u32,
    /// Gap between key cells, in pixels.
    pub key_spacing: u32,
}

/// User configuration of the overlay.
#[derive(Clone, PartialEq, Eq, Debug)]
pub struct Settings {
    /// Codes of the tracked keys, in layout order.
    pub tracked_keys: Vec<u32>,
    /// Rolling window length in milliseconds.
    pub window_ms: u64,
    /// Intensity decay per elapsed millisecond.
    pub decay_per_ms: u32,
    /// Highlight color of a pressed key.
    pub key_color: UColor32,
    /// Background color of the overlay.
    pub background_color: UColor32,
    /// Edge length of one key cell, in pixels.
    pub key_size: u32,
    /// Gap between key cells, in pixels.
    pub key_spacing: u32,
}

impl View for Settings {
    type V = SettingsModel;

    open spec fn view(&self) -> SettingsModel {
        SettingsModel {
            tracked_keys: self.tracked_keys@,
            window_ms: self.window_ms,
            decay_per_ms: self.decay_per_ms,
            key_color: self.key_color,
            background_color: self.background_color,
            key_size: self.key_size,
            key_spacing: self.key_spacing,
        }
    }
}

/// Well-formed configuration: a positive window and distinct tracked keys.
pub open spec fn settings_wf(s: SettingsModel) -> bool {
    &&& s.window_ms >= 1
    &&& forall|i: int, j: int|
        0 <= i < j < s.tracked_keys.len() ==> s.tracked_keys[i] != s.tracked_keys[j]
}

impl Settings {
    /// Well-formedness of this value's view.
    pub open spec fn wf(self) -> bool {
        settings_wf(self@)
    }
}

/// The out-of-the-box configuration: keys Z and X tracked, a one second
/// window, full decay in a quarter second, white keys on black.
pub open spec fn default_settings_model() -> SettingsModel {
    SettingsModel {
        tracked_keys: seq![90u32, 88u32],
        window_ms: 1000u64,
        decay_per_ms: 4u32,
        key_color: UColor32 { r: 255u8, g: 255u8, b: 255u8, a: 255u8 },
        background_color: UColor32 { r: 0u8, g: 0u8, b: 0u8, a: 255u8 },
        key_size: 64u32,
        key_spacing: 8u32,
    }
}

/// Autosave policy: the settings and UI memory are persisted once more than
/// the autosave interval has passed since the last save.
pub fn should_autosave(now_ms: u64, last_save_ms: u64, interval_ms: u64) -> (save: bool)
    ensures
        save == (now_ms > last_save_ms && now_ms - last_save_ms > interval_ms),
{
    now_ms > last_save_ms && now_ms - last_save_ms > interval_ms
}

/// Focus policy, polled every frame: reports whether the focus flag changed
/// and whether to save opportunistically — exactly on losing focus.
pub fn on_focus_poll(had_focus: bool, has_focus: bool) -> (r: (bool, bool))
    ensures
        r.0 == (had_focus != has_focus),
        r.1 == (had_focus && !has_focus),
{
    (had_focus != has_focus, had_focus && !has_focus)
}

impl Default for Settings {
    /// The out-of-the-box configuration, [`default_settings_model`].
    fn default() -> (s: Settings)
        ensures
            s.wf(),
            s@ == default_settings_model(),
    {
        let mut tracked_keys: Vec<u32> = Vec::new();
        tracked_keys.push(90);
        tracked_keys.push(88);
        proof {
            assert(tracked_keys@ =~= seq![90u32, 88u32]);
        }
        Settings {
            tracked_keys,
            window_ms: 1000,
            decay_per_ms: 4,
            key_color: UColor32::white(),
            background_color: UColor32::black(),
            key_size: 64,
            key_spacing: 8,
        }
    }
}

} // verus!
