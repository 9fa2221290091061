//! Key State Engine: the consumer-side statistics core.
//!
//! Once per frame the UI thread drains the channel and calls
//! [`KeyStateEngine::tick`] with the drained messages and the current
//! monotonic time. The engine keeps, for each tracked key, a [`KeyState`]
//! (down flag, last transition time, decaying visual intensity, retained
//! event timestamps) plus one aggregate rolling window, and derives the
//! keys-per-second metric from the retained timestamps.
//!
//! Every state change is pinned by the spec-level model: a tick first applies
//! continuous-time effects (intensity decay by elapsed wall-clock time,
//! eviction of timestamps older than the window), then folds the drained
//! messages over the per-key state with [`step_state`].

use vstd::prelude::*;

use crate::key_message::{KeyAction, KeyIdentity, KeyMessage};

verus! {

/// Upper bound of the displayed intensity scale (fixed-point, 0 = at rest).
pub const INTENSITY_MAX: u32 = 1000;

/// Spec-level view of one key's state.
#[verifier::ext_equal]
pub ghost struct KeyStateModel {
    /// Whether the key is currently held down.
    pub down: bool,
    /// Timestamp of the last press or release applied to this key.
    pub last_transition_ms: u64,
    /// Decaying visual intensity in `[0, INTENSITY_MAX]`.
    pub intensity: u32,
    /// Retained event timestamps of this key's rolling window.
    pub stamps: Seq<u64>,
}

/// A timestamp is retained when it is at most `window_ms` old. Timestamps
/// ahead of `now_ms` (clock adjustments) are tolerated and retained.
pub open spec fn in_window(t: u64, now_ms: u64, window_ms: u64) -> bool {
    now_ms - t <= window_ms
}

/// The timestamps of `s` that are still inside the window, in order.
pub open spec fn kept(s: Seq<u64>, now_ms: u64, window_ms: u64) -> Seq<u64>
    decreases s.len(),
{
    if s.len() == 0 {
        Seq::empty()
    } else {
        let r = kept(s.drop_last(), now_ms, window_ms);
        if in_window(s.last(), now_ms, window_ms) {
            r.push(s.last())
        } else {
            r
        }
    }
}

/// Intensity after `elapsed_ms` of decay at `decay_per_ms`, saturating at 0.
pub open spec fn decayed(intensity: u32, decay_per_ms: u32, elapsed_ms: u64) -> u32 {
    if intensity as int <= decay_per_ms as int * elapsed_ms as int {
        0u32
    } else {
        (intensity as int - decay_per_ms as int * elapsed_ms as int) as u32
    }
}

/// Wall-clock delta between two tick times; a non-monotonic clock reads as 0.
pub open spec fn elapsed_since(last_ms: u64, now_ms: u64) -> u64 {
    if now_ms >= last_ms {
        (now_ms - last_ms) as u64
    } else {
        0u64
    }
}

/// Continuous-time effects of one tick on a key's state: decay the intensity
/// and evict out-of-window timestamps. Down flag and transition time keep.
pub open spec fn prepared(
    st: KeyStateModel,
    now_ms: u64,
    window_ms: u64,
    decay_per_ms: u32,
    elapsed_ms: u64,
) -> KeyStateModel {
    KeyStateModel {
        down: st.down,
        last_transition_ms: st.last_transition_ms,
        intensity: decayed(st.intensity, decay_per_ms, elapsed_ms),
        stamps: kept(st.stamps, now_ms, window_ms),
    }
}

/// Effect of one drained message on its key's state: the down flag follows
/// the action (a release for a key never seen pressed simply marks it up
/// without underflowing anything; a duplicate or auto-repeat press only
/// refreshes time and intensity, yet still counts for KPS), the transition
/// time is the message's own timestamp, and a press boosts the intensity to
/// the maximum and joins the rolling window. Keys-per-second counts
/// key-press events, so a release adds no timestamp.
pub open spec fn step_state(st: KeyStateModel, m: KeyMessage) -> KeyStateModel {
    KeyStateModel {
        down: m.action == KeyAction::Pressed,
        last_transition_ms: m.time_ms,
        intensity: if m.action == KeyAction::Pressed {
            INTENSITY_MAX
        } else {
            st.intensity
        },
        stamps: if m.action == KeyAction::Pressed {
            st.stamps.push(m.time_ms)
        } else {
            st.stamps
        },
    }
}

/// Folds a batch of messages over one key's state, in drain order.
pub open spec fn run_state(st: KeyStateModel, ms: Seq<KeyMessage>) -> KeyStateModel
    decreases ms.len(),
{
    if ms.len() == 0 {
        st
    } else {
        step_state(run_state(st, ms.drop_last()), ms.last())
    }
}

/// The sub-batch of `ms` addressed to the key with the given code, in order.
pub open spec fn msgs_for(ms: Seq<KeyMessage>, code: u32) -> Seq<KeyMessage>
    decreases ms.len(),
{
    if ms.len() == 0 {
        Seq::empty()
    } else {
        let r = msgs_for(ms.drop_last(), code);
        if ms.last().key == KeyIdentity::Known(code) {
            r.push(ms.last())
        } else {
            r
        }
    }
}

/// Whether an identity is one of the tracked codes.
pub open spec fn is_tracked(key: KeyIdentity, codes: Seq<u32>) -> bool {
    match key {
        KeyIdentity::Known(c) => codes.contains(c),
        KeyIdentity::Unknown => false,
    }
}

/// Timestamps of the press events addressed to any tracked key, in order:
/// what a batch contributes to the aggregate window.
pub open spec fn tracked_times(ms: Seq<KeyMessage>, codes: Seq<u32>) -> Seq<u64>
    decreases ms.len(),
{
    if ms.len() == 0 {
        Seq::empty()
    } else {
        let r = tracked_times(ms.drop_last(), codes);
        if is_tracked(ms.last().key, codes) && ms.last().action == KeyAction::Pressed {
            r.push(ms.last().time_ms)
        } else {
            r
        }
    }
}

/// State of a freshly tracked key: up, at rest, empty window.
pub open spec fn init_state_model() -> KeyStateModel {
    KeyStateModel { down: false, last_transition_ms: 0u64, intensity: 0u32, stamps: Seq::empty() }
}

/// Keys-per-second in thousandths: retained event count divided by the
/// window length in seconds, saturating at `u64::MAX`.
pub open spec fn kps_milli_of(count: nat, window_ms: u64) -> u64
    recommends
        window_ms >= 1,
{
    let v = count * 1000000 / window_ms as nat;
    if v > u64::MAX {
        u64::MAX as u64
    } else {
        v as u64
    }
}

/// Per-key mutable record owned by the engine.
pub struct KeyState {
    /// Whether the key is currently held down.
    pub down: bool,
    /// Timestamp of the last press or release applied to this key.
    pub last_transition_ms: u64,
    /// Decaying visual intensity in `[0, INTENSITY_MAX]`.
    pub intensity: u32,
    /// Retained event timestamps of this key's rolling window.
    pub stamps: Vec<u64>,
}

impl View for KeyState {
    type V = KeyStateModel;

    open spec fn view(&self) -> KeyStateModel {
        KeyStateModel {
            down: self.down,
            last_transition_ms: self.last_transition_ms,
            intensity: self.intensity,
            stamps: self.stamps@,
        }
    }
}

/// One tracked key with its state.
pub struct KeySlot {
    /// The key's stable code.
    pub code: u32,
    /// Its mutable state.
    pub state: KeyState,
}

/// The Key State Engine: an explicit owned instance held by the consumer
/// thread; all access goes through its public operations.
pub struct KeyStateEngine {
    /// One slot per tracked key, in configuration order.
    pub slots: Vec<KeySlot>,
    /// Retained timestamps of the aggregate rolling window.
    pub aggregate: Vec<u64>,
    /// Rolling window length in milliseconds.
    pub window_ms: u64,
    /// Intensity decay per elapsed millisecond.
    pub decay_per_ms: u32,
    /// Time of the most recent tick.
    pub last_tick_ms: u64,
}

impl KeyStateEngine {
    /// The tracked codes, in slot order.
    pub open spec fn codes(self) -> Seq<u32> {
        self.slots@.map_values(|s: KeySlot| s.code)
    }

    /// Well-formed: positive window, distinct tracked codes, every intensity
    /// within the displayed scale.
    pub open spec fn wf(self) -> bool {
        &&& self.window_ms >= 1
        &&& forall|i: int, j: int|
            0 <= i < j < self.slots@.len() ==> self.slots@[i].code != self.slots@[j].code
        &&& forall|i: int|
            0 <= i < self.slots@.len() ==> (#[trigger] self.slots@[i]).state.intensity
                <= INTENSITY_MAX
    }

    /// Creates an engine tracking the given distinct key codes, all keys up
    /// and both windows empty.
    pub fn new(tracked_codes: &Vec<u32>, window_ms: u64, decay_per_ms: u32) -> (e: KeyStateEngine)
        requires
            window_ms >= 1,
            forall|i: int, j: int|
                0 <= i < j < tracked_codes@.len() ==> tracked_codes@[i] != tracked_codes@[j],
        ensures
            e.wf(),
            e.codes() =~= tracked_codes@,
            e.window_ms == window_ms,
            e.decay_per_ms == decay_per_ms,
            e.last_tick_ms == 0,
            e.aggregate@ =~= Seq::<u64>::empty(),
            forall|i: int|
                0 <= i < e.slots@.len() ==> (#[trigger] e.slots@[i]).state@ == init_state_model(),
    {
        let mut slots: Vec<KeySlot> = Vec::new();
        let mut i: usize = 0;
        while i < tracked_codes.len()
            invariant
                i <= tracked_codes@.len(),
                slots@.len() == i,
                forall|k: int|
                    0 <= k < i ==> (#[trigger] slots@[k]).code == tracked_codes@[k],
                forall|k: int|
                    0 <= k < i ==> (#[trigger] slots@[k]).state@ == init_state_model(),
            decreases tracked_codes@.len() - i,
        {
            let state = KeyState {
                down: false,
                last_transition_ms: 0,
                intensity: 0,
                stamps: Vec::new(),
            };
            slots.push(KeySlot { code: tracked_codes[i], state });
            i = i + 1;
        }
        let e = KeyStateEngine {
            slots,
            aggregate: Vec::new(),
            window_ms,
            decay_per_ms,
            last_tick_ms: 0,
        };
        proof {
            assert(e.codes() =~= tracked_codes@);
        }
        e
    }

    /// Creates an engine from a well-formed configuration: its tracked keys
    /// in their layout order, its window length and its decay rate.
    pub fn from_settings(s: &crate::settings::Settings) -> (e: KeyStateEngine)
        requires
            s.wf(),
        ensures
            e.wf(),
            e.codes() == s@.tracked_keys,
            e.window_ms == s@.window_ms,
            e.decay_per_ms == s@.decay_per_ms,
            e.last_tick_ms == 0,
            e.aggregate@ == Seq::<u64>::empty(),
            forall|i: int|
                0 <= i < e.slots@.len() ==> (#[trigger] e.slots@[i]).state@ == init_state_model(),
    {
        proof {
            assert forall|i: int, j: int|
                0 <= i < j < s.tracked_keys@.len() implies s.tracked_keys@[i]
                != s.tracked_keys@[j] by {
                assert(s@.tracked_keys[i] != s@.tracked_keys[j]);
            }
        }
        KeyStateEngine::new(&s.tracked_keys, s.window_ms, s.decay_per_ms)
    }

    /// Index of the slot tracking the given code, if any.
    fn find_slot(&self, code: u32) -> (r: Option<usize>)
        ensures
            match r {
                Some(idx) => idx < self.slots@.len() && self.slots@[idx as int].code == code,
                None => !self.codes().contains(code),
            },
    {
        let n = self.slots.len();
        let mut i: usize = 0;
        while i < n
            invariant
                n == self.slots@.len(),
                i <= n,
                forall|k: int| 0 <= k < i ==> (#[trigger] self.slots@[k]).code != code,
            decreases n - i,
        {
            if self.slots[i].code == code {
                return Some(i);
            }
            i = i + 1;
        }
        proof {
            assert forall|k: int| 0 <= k < self.codes().len() implies #[trigger] self.codes()[k]
                != code by {
                assert(self.codes()[k] == self.slots@[k].code);
            }
        }
        None
    }

    /// Applies one message addressed to the tracked key in slot `idx`: one
    /// [`step_state`] on that slot; a press also puts its timestamp onto the
    /// aggregate window.
    fn apply_known(&mut self, idx: usize, m: KeyMessage)
        requires
            idx < old(self).slots@.len(),
        ensures
            final(self).slots@.len() == old(self).slots@.len(),
            forall|k: int|
                0 <= k < old(self).slots@.len() && k != idx ==> #[trigger] final(self).slots@[k]
                    == old(self).slots@[k],
            final(self).slots@[idx as int].code == old(self).slots@[idx as int].code,
            final(self).slots@[idx as int].state@ == step_state(
                old(self).slots@[idx as int].state@,
                m,
            ),
            final(self).aggregate@ == (if m.action == KeyAction::Pressed {
                old(self).aggregate@.push(m.time_ms)
            } else {
                old(self).aggregate@
            }),
            final(self).window_ms == old(self).window_ms,
            final(self).decay_per_ms == old(self).decay_per_ms,
            final(self).last_tick_ms == old(self).last_tick_ms,
    {
        let pressed = match m.action {
            KeyAction::Pressed => true,
            KeyAction::Released => false,
        };
        self.slots[idx].state.down = pressed;
        self.slots[idx].state.last_transition_ms = m.time_ms;
        if pressed {
            self.slots[idx].state.intensity = INTENSITY_MAX;
            self.slots[idx].state.stamps.push(m.time_ms);
            self.aggregate.push(m.time_ms);
        }
        proof {
            assert(self.slots@[idx as int].state@ =~= step_state(
                old(self).slots@[idx as int].state@,
                m,
            ));
        }
    }

    /// Keys-per-second (in thousandths) for one tracked key: the retained
    /// event count of that key's window divided by the window length in
    /// seconds. `None` exactly when the code is not tracked. Repeated calls
    /// without new events never increase the value, since the retained count
    /// only shrinks between events.
    pub fn keys_per_second_milli(&self, code: u32) -> (r: Option<u64>)
        requires
            self.wf(),
        ensures
            r is Some <==> self.codes().contains(code),
            forall|i: int|
                0 <= i < self.slots@.len() && (#[trigger] self.slots@[i]).code == code ==> r
                    == Some(kps_milli_of(self.slots@[i].state.stamps@.len(), self.window_ms)),
    {
        match self.find_slot(code) {
            Some(idx) => {
                proof {
                    assert(self.codes()[idx as int] == self.slots@[idx as int].code);
                    assert forall|i: int|
                        0 <= i < self.slots@.len() && (#[trigger] self.slots@[i]).code
                            == code implies i == idx by {}
                }
                Some(kps_exec(self.slots[idx].state.stamps.len(), self.window_ms))
            },
            None => {
                proof {
                    assert forall|i: int|
                        0 <= i < self.slots@.len() implies (#[trigger] self.slots@[i]).code
                        != code by {
                        assert(self.codes()[i] == self.slots@[i].code);
                    }
                }
                None
            },
        }
    }

    /// Keys-per-second (in thousandths) over all tracked keys together.
    pub fn aggregate_keys_per_second_milli(&self) -> (r: u64)
        requires
            self.wf(),
        ensures
            r == kps_milli_of(self.aggregate@.len(), self.window_ms),
    {
        kps_exec(self.aggregate.len(), self.window_ms)
    }

    /// One frame of the engine, called with the messages drained this frame.
    ///
    /// First the continuous-time effects are applied to every tracked key
    /// and to the aggregate window: intensity decays by the elapsed
    /// wall-clock time and out-of-window timestamps are evicted. Then the
    /// drained messages are folded, in order, over the state of the key each
    /// one addresses; messages for untracked or unknown identities are
    /// ignored. The postcondition pins each key's new state and the new
    /// aggregate window exactly.
    pub fn tick(&mut self, now_ms: u64, msgs: &Vec<KeyMessage>)
        requires
            old(self).wf(),
        ensures
            final(self).wf(),
            final(self).window_ms == old(self).window_ms,
            final(self).decay_per_ms == old(self).decay_per_ms,
            final(self).last_tick_ms == now_ms,
            final(self).slots@.len() == old(self).slots@.len(),
            final(self).codes() == old(self).codes(),
            forall|i: int|
                0 <= i < old(self).slots@.len() ==> (#[trigger] final(self).slots@[i]).state@
                    == run_state(
                    prepared(
                        old(self).slots@[i].state@,
                        now_ms,
                        old(self).window_ms,
                        old(self).decay_per_ms,
                        elapsed_since(old(self).last_tick_ms, now_ms),
                    ),
                    msgs_for(msgs@, old(self).slots@[i].code),
                ),
            final(self).aggregate@ == kept(old(self).aggregate@, now_ms, old(self).window_ms)
                + tracked_times(msgs@, old(self).codes()),
    {
        let elapsed: u64 = if now_ms >= self.last_tick_ms {
            now_ms - self.last_tick_ms
        } else {
            0
        };
        proof {
            assert(elapsed == elapsed_since(old(self).last_tick_ms, now_ms));
        }
        self.last_tick_ms = now_ms;
        let win = self.window_ms;
        let dec = self.decay_per_ms;

        let n = self.slots.len();
        let mut i: usize = 0;
        while i < n
            invariant
                n == self.slots@.len(),
                i <= n,
                self.slots@.len() == old(self).slots@.len(),
                self.window_ms == old(self).window_ms,
                self.decay_per_ms == old(self).decay_per_ms,
                self.last_tick_ms == now_ms,
                self.aggregate@ == old(self).aggregate@,
                win == old(self).window_ms,
                dec == old(self).decay_per_ms,
                elapsed == elapsed_since(old(self).last_tick_ms, now_ms),
                forall|k: int| i <= k < n ==> #[trigger] self.slots@[k] == old(self).slots@[k],
                forall|k: int|
                    0 <= k < i ==> (#[trigger] self.slots@[k]).code == old(self).slots@[k].code,
                forall|k: int|
                    0 <= k < i ==> (#[trigger] self.slots@[k]).state@ == prepared(
                        old(self).slots@[k].state@,
                        now_ms,
                        win,
                        dec,
                        elapsed,
                    ),
            decreases n - i,
        {
            let new_stamps = evict_vec(&self.slots[i].state.stamps, now_ms, win);
            let ni = decay_exec(self.slots[i].state.intensity, dec, elapsed);
            self.slots[i].state.intensity = ni;
            self.slots[i].state.stamps = new_stamps;
            proof {
                assert(self.slots@[i as int].state@ =~= prepared(
                    old(self).slots@[i as int].state@,
                    now_ms,
                    win,
                    dec,
                    elapsed,
                ));
            }
            i = i + 1;
        }
        let new_agg = evict_vec(&self.aggregate, now_ms, win);
        self.aggregate = new_agg;
        proof {
            assert(self.codes() =~= old(self).codes());
        }

        let mut j: usize = 0;
        let msg_count = msgs.len();
        while j < msg_count
            invariant
                msg_count == msgs@.len(),
                j <= msg_count,
                self.slots@.len() == old(self).slots@.len(),
                self.window_ms == old(self).window_ms,
                self.decay_per_ms == old(self).decay_per_ms,
                self.last_tick_ms == now_ms,
                old(self).wf(),
                forall|k: int|
                    0 <= k < old(self).slots@.len() ==> (#[trigger] self.slots@[k]).code == old(
                        self,
                    ).slots@[k].code,
                forall|k: int|
                    0 <= k < old(self).slots@.len() ==> (#[trigger] self.slots@[k]).state@
                        == run_state(
                        prepared(
                            old(self).slots@[k].state@,
                            now_ms,
                            old(self).window_ms,
                            old(self).decay_per_ms,
                            elapsed_since(old(self).last_tick_ms, now_ms),
                        ),
                        msgs_for(msgs@.take(j as int), old(self).slots@[k].code),
                    ),
                self.aggregate@ == kept(old(self).aggregate@, now_ms, old(self).window_ms)
                    + tracked_times(msgs@.take(j as int), old(self).codes()),
            decreases msg_count - j,
        {
            let m = msgs[j];
            proof {
                assert(msgs@.take(j as int + 1).drop_last() =~= msgs@.take(j as int));
                assert(msgs@.take(j as int + 1) =~= msgs@.take(j as int).push(m));
                assert(self.codes() =~= old(self).codes());
            }
            let ghost taken = msgs@.take(j as int);
            match m.key {
                KeyIdentity::Known(code) => {
                    match self.find_slot(code) {
                        Some(idx) => {
                            let ghost before = *self;
                            self.apply_known(idx, m);
                            proof {
                                assert(is_tracked(m.key, old(self).codes())) by {
                                    assert(old(self).codes()[idx as int] == code);
                                }
                                lemma_tracked_times_push(taken, m, old(self).codes());
                                assert forall|k: int|
                                    0 <= k < old(self).slots@.len() implies (
                                #[trigger] self.slots@[k]).state@ == run_state(
                                    prepared(
                                        old(self).slots@[k].state@,
                                        now_ms,
                                        old(self).window_ms,
                                        old(self).decay_per_ms,
                                        elapsed_since(old(self).last_tick_ms, now_ms),
                                    ),
                                    msgs_for(taken.push(m), old(self).slots@[k].code),
                                ) by {
                                    lemma_msgs_for_push(taken, m, old(self).slots@[k].code);
                                    if k == idx {
                                        lemma_run_state_push(
                                            prepared(
                                                old(self).slots@[k].state@,
                                                now_ms,
                                                old(self).window_ms,
                                                old(self).decay_per_ms,
                                                elapsed_since(old(self).last_tick_ms, now_ms),
                                            ),
                                            msgs_for(taken, old(self).slots@[k].code),
                                            m,
                                        );
                                    } else {
                                        assert(old(self).slots@[k].code != code);
                                        assert(self.slots@[k] == before.slots@[k]);
                                    }
                                }
                            }
                        },
                        None => {
                            proof {
                                assert(!is_tracked(m.key, old(self).codes()));
                                lemma_tracked_times_push(taken, m, old(self).codes());
                                assert forall|k: int|
                                    0 <= k < old(self).slots@.len() implies msgs_for(
                                    taken.push(m),
                                    old(self).slots@[k].code,
                                ) == msgs_for(taken, old(self).slots@[k].code) by {
                                    lemma_msgs_for_push(taken, m, old(self).slots@[k].code);
                                    assert(old(self).codes()[k] == old(self).slots@[k].code);
                                }
                            }
                        },
                    }
                },
                KeyIdentity::Unknown => {
                    proof {
                        assert(!is_tracked(m.key, old(self).codes()));
                        lemma_tracked_times_push(taken, m, old(self).codes());
                        assert forall|k: int|
                            0 <= k < old(self).slots@.len() implies msgs_for(
                            taken.push(m),
                            old(self).slots@[k].code,
                        ) == msgs_for(taken, old(self).slots@[k].code) by {
                            lemma_msgs_for_push(taken, m, old(self).slots@[k].code);
                        }
                    }
                },
            }
            j = j + 1;
        }
        proof {
            assert(msgs@.take(msgs@.len() as int) =~= msgs@);
            assert(self.codes() =~= old(self).codes());
            assert forall|k: int|
                0 <= k < self.slots@.len() implies (#[trigger] self.slots@[k]).state.intensity
                <= INTENSITY_MAX by {
                let prep = prepared(
                    old(self).slots@[k].state@,
                    now_ms,
                    old(self).window_ms,
                    old(self).decay_per_ms,
                    elapsed_since(old(self).last_tick_ms, now_ms),
                );
                lemma_run_state_intensity_bound(prep, msgs_for(msgs@, old(self).slots@[k].code));
            }
        }
    }
}

/// Appending one message to a batch extends the per-key sub-batch exactly
/// when the message addresses that key.
pub proof fn lemma_msgs_for_push(s: Seq<KeyMessage>, m: KeyMessage, code: u32)
    ensures
        msgs_for(s.push(m), code) == (if m.key == KeyIdentity::Known(code) {
            msgs_for(s, code).push(m)
        } else {
            msgs_for(s, code)
        }),
{
    assert(s.push(m).drop_last() =~= s);
    assert(s.push(m).last() == m);
}

/// Appending one message extends the aggregate contribution exactly when the
/// message is a press of a tracked key.
pub proof fn lemma_tracked_times_push(s: Seq<KeyMessage>, m: KeyMessage, codes: Seq<u32>)
    ensures
        tracked_times(s.push(m), codes) == (if is_tracked(m.key, codes) && m.action
            == KeyAction::Pressed {
            tracked_times(s, codes).push(m.time_ms)
        } else {
            tracked_times(s, codes)
        }),
{
    assert(s.push(m).drop_last() =~= s);
    assert(s.push(m).last() == m);
}

/// Folding one more message is one more step.
pub proof fn lemma_run_state_push(st: KeyStateModel, s: Seq<KeyMessage>, m: KeyMessage)
    ensures
        run_state(st, s.push(m)) == step_state(run_state(st, s), m),
{
    assert(s.push(m).drop_last() =~= s);
    assert(s.push(m).last() == m);
}

/// The displayed intensity never leaves `[0, INTENSITY_MAX]`: folding any
/// batch of messages over a state within the scale stays within the scale.
pub proof fn lemma_run_state_intensity_bound(st: KeyStateModel, ms: Seq<KeyMessage>)
    requires
        st.intensity <= INTENSITY_MAX,
    ensures
        run_state(st, ms).intensity <= INTENSITY_MAX,
    decreases ms.len(),
{
    if ms.len() > 0 {
        lemma_run_state_intensity_bound(st, ms.drop_last());
    }
}

/// A batch whose last message is a press leaves the key's intensity at the
/// maximum: the boost is immediate.
pub proof fn lemma_pressed_sets_max_intensity(st: KeyStateModel, ms: Seq<KeyMessage>)
    requires
        ms.len() > 0,
        ms.last().action == KeyAction::Pressed,
    ensures
        run_state(st, ms).intensity == INTENSITY_MAX,
{
}

/// KPS of a scope with no retained events in the trailing window is exactly
/// zero.
pub proof fn lemma_kps_zero_when_empty(window_ms: u64)
    requires
        window_ms >= 1,
    ensures
        kps_milli_of(0, window_ms) == 0,
{
    assert(0nat * 1000000 / window_ms as nat == 0) by (nonlinear_arith)
        requires
            window_ms >= 1,
    ;
}

/// Eviction never grows a window.
pub proof fn lemma_kept_len_le(s: Seq<u64>, now_ms: u64, window_ms: u64)
    ensures
        kept(s, now_ms, window_ms).len() <= s.len(),
    decreases s.len(),
{
    if s.len() > 0 {
        lemma_kept_len_le(s.drop_last(), now_ms, window_ms);
    }
}

/// The keys-per-second reading grows with the retained count.
pub proof fn lemma_kps_monotone(c1: nat, c2: nat, window_ms: u64)
    requires
        window_ms >= 1,
        c1 <= c2,
    ensures
        kps_milli_of(c1, window_ms) <= kps_milli_of(c2, window_ms),
{
    vstd::arithmetic::div_mod::lemma_div_is_ordered(
        c1 as int * 1000000,
        c2 as int * 1000000,
        window_ms as int,
    );
}

/// Monotone consistency of the metric: a tick that drains no events can
/// only evict timestamps, so a repeated keys-per-second reading never
/// increases, and it reaches exactly zero once the window empties.
pub proof fn lemma_kps_never_increases_without_events(
    stamps: Seq<u64>,
    now_ms: u64,
    window_ms: u64,
)
    requires
        window_ms >= 1,
    ensures
        kps_milli_of(kept(stamps, now_ms, window_ms).len() as nat, window_ms) <= kps_milli_of(
            stamps.len() as nat,
            window_ms,
        ),
{
    lemma_kept_len_le(stamps, now_ms, window_ms);
    lemma_kps_monotone(
        kept(stamps, now_ms, window_ms).len() as nat,
        stamps.len() as nat,
        window_ms,
    );
}

/// Timestamps that all lie within the window survive eviction unchanged.
pub proof fn lemma_kept_all_in_window(s: Seq<u64>, now_ms: u64, window_ms: u64)
    requires
        forall|i: int| 0 <= i < s.len() ==> in_window(#[trigger] s[i], now_ms, window_ms),
    ensures
        kept(s, now_ms, window_ms) == s,
    decreases s.len(),
{
    if s.len() == 0 {
        assert(kept(s, now_ms, window_ms) =~= s);
    } else {
        lemma_kept_all_in_window(s.drop_last(), now_ms, window_ms);
        assert(kept(s, now_ms, window_ms) =~= s);
    }
}

/// Timestamps of the press events of a batch, in order.
pub open spec fn press_times(ms: Seq<KeyMessage>) -> Seq<u64>
    decreases ms.len(),
{
    if ms.len() == 0 {
        Seq::empty()
    } else {
        let r = press_times(ms.drop_last());
        if ms.last().action == KeyAction::Pressed {
            r.push(ms.last().time_ms)
        } else {
            r
        }
    }
}

/// A batch adds exactly the timestamps of its press events, in order, to the
/// rolling window of the key it is fed to.
pub proof fn lemma_run_state_stamps(st: KeyStateModel, ms: Seq<KeyMessage>)
    ensures
        run_state(st, ms).stamps == st.stamps + press_times(ms),
    decreases ms.len(),
{
    if ms.len() == 0 {
        assert(st.stamps + press_times(ms) =~= st.stamps);
    } else {
        lemma_run_state_stamps(st, ms.drop_last());
        assert(run_state(st, ms).stamps =~= st.stamps + press_times(ms));
    }
}

/// Every event of an all-press batch is counted.
pub proof fn lemma_press_times_all_pressed(ms: Seq<KeyMessage>)
    requires
        forall|i: int| 0 <= i < ms.len() ==> (#[trigger] ms[i]).action == KeyAction::Pressed,
    ensures
        press_times(ms).len() == ms.len(),
    decreases ms.len(),
{
    if ms.len() > 0 {
        lemma_press_times_all_pressed(ms.drop_last());
    }
}

/// In a batch addressed entirely to one key, that key's sub-batch is the
/// whole batch.
pub proof fn lemma_msgs_for_all_match(ms: Seq<KeyMessage>, code: u32)
    requires
        forall|i: int|
            0 <= i < ms.len() ==> (#[trigger] ms[i]).key == KeyIdentity::Known(code),
    ensures
        msgs_for(ms, code) == ms,
    decreases ms.len(),
{
    if ms.len() == 0 {
        assert(msgs_for(ms, code) =~= ms);
    } else {
        lemma_msgs_for_all_match(ms.drop_last(), code);
        assert(msgs_for(ms, code) =~= ms);
    }
}

/// N press events for one key, fed to a state whose window was empty, leave
/// exactly N retained timestamps: the keys-per-second metric then reads
/// N divided by the window length.
pub proof fn lemma_presses_fill_window(
    st: KeyStateModel,
    ms: Seq<KeyMessage>,
    code: u32,
    now_ms: u64,
    window_ms: u64,
    decay_per_ms: u32,
    elapsed_ms: u64,
)
    requires
        st.stamps.len() == 0,
        forall|i: int|
            0 <= i < ms.len() ==> (#[trigger] ms[i]).key == KeyIdentity::Known(code),
        forall|i: int| 0 <= i < ms.len() ==> (#[trigger] ms[i]).action == KeyAction::Pressed,
    ensures
        run_state(
            prepared(st, now_ms, window_ms, decay_per_ms, elapsed_ms),
            msgs_for(ms, code),
        ).stamps.len() == ms.len(),
{
    let prep = prepared(st, now_ms, window_ms, decay_per_ms, elapsed_ms);
    assert(st.stamps =~= Seq::<u64>::empty());
    assert(prep.stamps.len() == 0);
    lemma_msgs_for_all_match(ms, code);
    lemma_run_state_stamps(prep, ms);
    lemma_press_times_all_pressed(ms);
}

/// Eviction pass: keeps exactly the in-window timestamps, in order.
fn evict_vec(stamps: &Vec<u64>, now_ms: u64, window_ms: u64) -> (out: Vec<u64>)
    ensures
        out@ == kept(stamps@, now_ms, window_ms),
{
    let mut out: Vec<u64> = Vec::new();
    let mut i: usize = 0;
    while i < stamps.len()
        invariant
            i <= stamps@.len(),
            out@ == kept(stamps@.take(i as int), now_ms, window_ms),
        decreases stamps@.len() - i,
    {
        let t = stamps[i];
        proof {
            assert(stamps@.take(i as int + 1).drop_last() =~= stamps@.take(i as int));
            assert(stamps@.take(i as int + 1).last() == stamps@[i as int]);
        }
        if t >= now_ms || now_ms - t <= window_ms {
            out.push(t);
        }
        i = i + 1;
    }
    proof {
        assert(stamps@.take(stamps@.len() as int) =~= stamps@);
    }
    out
}

/// Executable keys-per-second, equal to the spec-level [`kps_milli_of`].
fn kps_exec(count: usize, window_ms: u64) -> (r: u64)
    requires
        window_ms >= 1,
    ensures
        r == kps_milli_of(count as nat, window_ms),
{
    proof {
        assert((count as int) * 1000000 < 0x1_0000_0000_0000_0000_0000_0000_0000_0000int)
            by (nonlinear_arith)
            requires
                count < 0x1_0000_0000_0000_0000int,
        ;
    }
    let prod: u128 = (count as u128) * 1000000;
    let v: u128 = prod / (window_ms as u128);
    if v > u64::MAX as u128 {
        u64::MAX
    } else {
        v as u64
    }
}

/// Saturating decay step, equal to the spec-level [`decayed`].
fn decay_exec(intensity: u32, decay_per_ms: u32, elapsed_ms: u64) -> (r: u32)
    ensures
        r == decayed(intensity, decay_per_ms, elapsed_ms),
{
    proof {
        assert((decay_per_ms as int) * (elapsed_ms as int) < 0x1_0000_0000_0000_0000_0000_0000_0000_0000int)
            by (nonlinear_arith)
            requires
                decay_per_ms < 0x1_0000_0000int,
                elapsed_ms < 0x1_0000_0000_0000_0000int,
        ;
    }
    let total: u128 = (decay_per_ms as u128) * (elapsed_ms as u128);
    if total >= intensity as u128 {
        0
    } else {
        intensity - (total as u32)
    }
}

} // verus!
