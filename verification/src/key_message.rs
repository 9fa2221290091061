//! Event data model and the event normalizer.
//!
//! The normalizer turns an OS-specific raw hook payload (a virtual-key style
//! code, a press/release flag and a timestamp) into a small structured
//! [`KeyMessage`]. It is total: an unrecognized raw code maps to the
//! designated [`KeyIdentity::Unknown`] identity instead of being dropped, so
//! downstream consumers can choose to ignore or surface such events.

use vstd::prelude::*;

verus! {

/// Stable identifier for a physical key or mouse button, independent of OS
/// scan-code quirks. Distinct recognized codes give distinct identities, and
/// the same code always gives the same identity.
#[derive(Clone, Copy, PartialEq, Eq, Structural, Debug)]
pub enum KeyIdentity {
    /// A recognized key, identified by its stable code.
    Known(u32),
    /// A raw payload whose code the normalizer does not recognize.
    Unknown,
}

/// What happened to the key.
#[derive(Clone, Copy, PartialEq, Eq, Structural, Debug)]
pub enum KeyAction {
    /// The key or button went down (including OS auto-repeat deliveries).
    Pressed,
    /// The key or button came back up.
    Released,
}

/// One normalized input event: identity, action and the monotonic timestamp
/// (milliseconds) carried over unchanged from the raw delivery.
#[derive(Clone, Copy, PartialEq, Eq, Structural, Debug)]
pub struct KeyMessage {
    /// Which key the event is about.
    pub key: KeyIdentity,
    /// Press or release.
    pub action: KeyAction,
    /// Millisecond timestamp taken at raw delivery time.
    pub time_ms: u64,
}

/// Raw codes the normalizer recognizes: the virtual-key code range used by
/// low-level keyboard and mouse hooks.
pub open spec fn recognized_code(code: u32) -> bool {
    1 <= code <= 254
}

/// Identity assigned to a raw code: its stable [`KeyIdentity::Known`] value
/// when recognized, [`KeyIdentity::Unknown`] otherwise.
pub open spec fn normalized_identity(code: u32) -> KeyIdentity {
    if recognized_code(code) {
        KeyIdentity::Known(code)
    } else {
        KeyIdentity::Unknown
    }
}

/// Event Normalizer: maps one raw hook payload to a [`KeyMessage`].
///
/// Pure and total: no raw payload is rejected and no event is reordered; the
/// timestamp is preserved exactly for correct windowing downstream. A nonzero
/// `raw_pressed` flag marks a key-down delivery.
pub fn normalize(raw_code: u32, raw_pressed: u32, time_ms: u64) -> (m: KeyMessage)
    ensures
        m.key == normalized_identity(raw_code),
        m.action == (if raw_pressed != 0 {
            KeyAction::Pressed
        } else {
            KeyAction::Released
        }),
        m.time_ms == time_ms,
{
    let key = if 1 <= raw_code && raw_code <= 254 {
        KeyIdentity::Known(raw_code)
    } else {
        KeyIdentity::Unknown
    };
    let action = if raw_pressed != 0 {
        KeyAction::Pressed
    } else {
        KeyAction::Released
    };
    KeyMessage { key, action, time_ms }
}

} // verus!
