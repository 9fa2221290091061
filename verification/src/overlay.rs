//! Overlay Presentation Model: the per-frame view handed to the renderer.
//!
//! [`snapshot`] is a pure read of the engine's current state, rebuilt
//! wholesale every frame and never mutated afterwards; the entries keep the
//! engine's configuration order.

use vstd::prelude::*;

use crate::engine::KeyStateEngine;

verus! {

/// One rendered key: its code, displayed intensity and displayed count of
/// retained events.
#[derive(Clone, Copy, PartialEq, Eq, Structural, Debug)]
pub struct OverlayEntry {
    /// The tracked key's stable code.
    pub code: u32,
    /// Displayed intensity in `[0, INTENSITY_MAX]`.
    pub intensity: u32,
    /// Whether the key is currently held down.
    pub down: bool,
    /// Number of events retained in this key's rolling window.
    pub count: usize,
}

/// The immutable per-frame view: one entry per tracked key, in configuration
/// order, plus the aggregate retained event count.
pub struct OverlaySnapshot {
    /// Per-key entries, ordered as in the engine's configuration.
    pub entries: Vec<OverlayEntry>,
    /// Number of events retained in the aggregate rolling window.
    pub aggregate_count: usize,
}

/// Builds the per-frame snapshot: a pure read of the engine, one entry per
/// tracked key in slot order, each carrying that key's current intensity,
/// down flag and retained event count.
pub fn snapshot(engine: &KeyStateEngine) -> (s: OverlaySnapshot)
    ensures
        s.entries@.len() == engine.slots@.len(),
        forall|i: int|
            0 <= i < engine.slots@.len() ==> {
                &&& (#[trigger] s.entries@[i]).code == engine.slots@[i].code
                &&& s.entries@[i].intensity == engine.slots@[i].state.intensity
                &&& s.entries@[i].down == engine.slots@[i].state.down
                &&& s.entries@[i].count == engine.slots@[i].state.stamps@.len()
            },
        s.aggregate_count == engine.aggregate@.len(),
{
    let mut entries: Vec<OverlayEntry> = Vec::new();
    let n = engine.slots.len();
    let mut i: usize = 0;
    while i < n
        invariant
            n == engine.slots@.len(),
            i <= n,
            entries@.len() == i,
            forall|k: int|
                0 <= k < i ==> {
                    &&& (#[trigger] entries@[k]).code == engine.slots@[k].code
                    &&& entries@[k].intensity == engine.slots@[k].state.intensity
                    &&& entries@[k].down == engine.slots@[k].state.down
                    &&& entries@[k].count == engine.slots@[k].state.stamps@.len()
                },
        decreases n - i,
    {
        let slot = &engine.slots[i];
        entries.push(
            OverlayEntry {
                code: slot.code,
                intensity: slot.state.intensity,
                down: slot.state.down,
                count: slot.state.stamps.len(),
            },
        );
        i = i + 1;
    }
    OverlaySnapshot { entries, aggregate_count: engine.aggregate.len() }
}

} // verus!
