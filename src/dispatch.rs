use vstd::prelude::*;

use crate::keys::{combo_matches, SerializableKeycode, ShortcutListener};
use crate::audio::path_of;
use crate::sound::Sound;

verus! {

/// Milliseconds between two dispatch ticks.
pub const POLL_INTERVAL_MS: u64 = 50;

/// Milliseconds during which no shortcut is evaluated after a tick acted.
pub const DEBOUNCE_MS: u64 = 1000;

/// How a shortcut acts while something is already playing.
#[derive(Clone, Copy, Debug, PartialEq, Eq, Structural)]
pub struct PolicySettings {
    /// Pressing the shortcut of a sound that is playing stops it.
    pub toggle_to_stop: bool,
    /// Pressing the shortcut of another sound stops what plays and starts it.
    pub stop_on_new: bool,
}

impl Default for PolicySettings {
    /// Both policies on.
    fn default() -> (r: PolicySettings)
        ensures
            r.toggle_to_stop,
            r.stop_on_new,
    {
        PolicySettings { toggle_to_stop: true, stop_on_new: true }
    }
}

/// What a tick asks of the audio thread, for the sound at an index of the
/// configured list.
#[derive(Clone, Copy, Debug, PartialEq, Eq, Structural)]
pub enum DispatchAction {
    /// Issue `Play` for the sound.
    Play(usize),
    /// Issue `Stop` for the sound.
    Stop(usize),
    /// Issue `StopAll`, then `Play` for the sound.
    StopAllThenPlay(usize),
}

/// Where the dispatcher stands between ticks.
#[derive(Clone, Copy, Debug, PartialEq, Eq, Structural)]
pub enum DispatchPhase {
    /// Shortcuts are evaluated at the next tick.
    Idle,
    /// A tick acted; shortcuts are ignored until the debounce window ends.
    DebounceHold,
}

/// Whether a sound is a candidate of a tick: it is not being edited, and it
/// has a shortcut that is fully pressed.
pub open spec fn triggered(sound: Sound, pressed: Seq<SerializableKeycode>) -> bool {
    &&& !sound.editing
    &&& match sound.shortcut {
        Some(c) => combo_matches(c@, pressed),
        None => false,
    }
}

/// The action for the candidate at index `i`, given whether anything plays
/// and whether the candidate itself plays; `None` where no policy applies.
pub open spec fn policy_action(
    any_playing: bool,
    candidate_playing: bool,
    policy: PolicySettings,
    i: usize,
) -> Option<DispatchAction> {
    if !any_playing {
        Some(DispatchAction::Play(i))
    } else if policy.toggle_to_stop && candidate_playing {
        Some(DispatchAction::Stop(i))
    } else if policy.stop_on_new && !candidate_playing {
        Some(DispatchAction::StopAllThenPlay(i))
    } else {
        None
    }
}

/// The first action found scanning the sounds from index `k` on.
pub open spec fn first_action_from(
    sounds: Seq<Sound>,
    pressed: Seq<SerializableKeycode>,
    any_playing: bool,
    playing: Seq<bool>,
    policy: PolicySettings,
    k: int,
) -> Option<DispatchAction>
    decreases sounds.len() - k,
{
    if k < 0 || k >= sounds.len() {
        None
    } else if triggered(sounds[k], pressed) && policy_action(
        any_playing,
        playing[k],
        policy,
        k as usize,
    ) is Some {
        policy_action(any_playing, playing[k], policy, k as usize)
    } else {
        first_action_from(sounds, pressed, any_playing, playing, policy, k + 1)
    }
}

/// The action of a tick: the sounds are scanned in configuration order and
/// the first candidate for which a policy applies acts; a lower index wins.
pub open spec fn tick_action(
    sounds: Seq<Sound>,
    pressed: Seq<SerializableKeycode>,
    any_playing: bool,
    playing: Seq<bool>,
    policy: PolicySettings,
) -> Option<DispatchAction> {
    first_action_from(sounds, pressed, any_playing, playing, policy, 0)
}

/// The action for one candidate (see `policy_action`).
pub fn resolve_action(
    any_playing: bool,
    candidate_playing: bool,
    policy: PolicySettings,
    i: usize,
) -> (r: Option<DispatchAction>)
    ensures
        r == policy_action(any_playing, candidate_playing, policy, i),
{
    if !any_playing {
        Some(DispatchAction::Play(i))
    } else if policy.toggle_to_stop && candidate_playing {
        Some(DispatchAction::Stop(i))
    } else if policy.stop_on_new && !candidate_playing {
        Some(DispatchAction::StopAllThenPlay(i))
    } else {
        None
    }
}

/// Whether the sound is a candidate of a tick (see `triggered`).
pub fn is_triggered<L: ShortcutListener>(sound: &Sound, listener: &L) -> (r: bool)
    ensures
        r == triggered(*sound, listener.pressed_view()),
{
    if sound.editing {
        return false;
    }
    match &sound.shortcut {
        Some(c) => listener.is_pressed(c),
        None => false,
    }
}

proof fn lemma_skip_to(
    sounds: Seq<Sound>,
    pressed: Seq<SerializableKeycode>,
    any_playing: bool,
    playing: Seq<bool>,
    policy: PolicySettings,
    a: int,
)
    requires
        0 <= a <= sounds.len(),
        forall|j: int| 0 <= j < a ==> !triggered(#[trigger] sounds[j], pressed),
    ensures
        tick_action(sounds, pressed, any_playing, playing, policy) == first_action_from(
            sounds,
            pressed,
            any_playing,
            playing,
            policy,
            a,
        ),
    decreases a,
{
    if a > 0 {
        lemma_skip_to(sounds, pressed, any_playing, playing, policy, a - 1);
    }
}

/// With toggle-to-stop on, while sound `a` plays and its shortcut is held
/// (no earlier sound being a candidate), the tick stops `a` and starts
/// nothing; the registry after that `Stop` no longer holds `a` and gained
/// nothing.
pub proof fn lemma_toggle_stops_playing<S>(
    sounds: Seq<Sound>,
    pressed: Seq<SerializableKeycode>,
    playing: Seq<bool>,
    policy: PolicySettings,
    a: int,
    before: Map<Seq<char>, S>,
    after: Map<Seq<char>, S>,
)
    requires
        policy.toggle_to_stop,
        0 <= a < sounds.len(),
        playing.len() == sounds.len(),
        playing[a],
        triggered(sounds[a], pressed),
        forall|j: int| 0 <= j < a ==> !triggered(#[trigger] sounds[j], pressed),
        path_of(sounds[a]) is Some,
        after == before.remove(path_of(sounds[a])->Some_0),
    ensures
        tick_action(sounds, pressed, true, playing, policy) == Some(DispatchAction::Stop(a as usize)),
        !after.contains_key(path_of(sounds[a])->Some_0),
        after.dom().subset_of(before.dom()),
{
    lemma_skip_to(sounds, pressed, true, playing, policy, a);
}

/// With stop-on-new on, while something plays and the shortcut of sound
/// `b`, which is not playing, is held (no earlier sound being a
/// candidate), the tick stops everything and plays `b`; after that
/// `StopAll` and `Play`, exactly one instance is registered, and it is
/// `b`'s.
pub proof fn lemma_stop_on_new_switches<S>(
    sounds: Seq<Sound>,
    pressed: Seq<SerializableKeycode>,
    playing: Seq<bool>,
    policy: PolicySettings,
    b: int,
    cleared: Map<Seq<char>, S>,
    after: Map<Seq<char>, S>,
    sink: S,
)
    requires
        policy.stop_on_new,
        0 <= b < sounds.len(),
        playing.len() == sounds.len(),
        !playing[b],
        triggered(sounds[b], pressed),
        forall|j: int| 0 <= j < b ==> !triggered(#[trigger] sounds[j], pressed),
        path_of(sounds[b]) is Some,
        cleared == Map::<Seq<char>, S>::empty(),
        after == cleared.insert(path_of(sounds[b])->Some_0, sink),
    ensures
        tick_action(sounds, pressed, true, playing, policy) == Some(
            DispatchAction::StopAllThenPlay(b as usize),
        ),
        after.dom() == set![path_of(sounds[b])->Some_0],
        after[path_of(sounds[b])->Some_0] == sink,
{
    lemma_skip_to(sounds, pressed, true, playing, policy, b);
    assert(after.dom() =~= set![path_of(sounds[b])->Some_0]);
}

/// The shortcut-to-playback arbitration, with its debounce state.
#[derive(Clone, Copy, Debug, PartialEq, Eq, Structural)]
pub struct Dispatcher {
    pub phase: DispatchPhase,
}

impl Dispatcher {
    /// A dispatcher that evaluates shortcuts at its first tick.
    pub fn new() -> (r: Dispatcher)
        ensures
            r.phase == DispatchPhase::Idle,
    {
        Dispatcher { phase: DispatchPhase::Idle }
    }

    /// One dispatch tick, on a fresh key snapshot. `any_playing` is the
    /// engine's answer for no sound, and `playing[i]` its answer for the
    /// `i`-th sound. While the debounce window holds nothing is evaluated;
    /// otherwise the action of the tick is returned, and an action opens
    /// the debounce window.
    pub fn tick<L: ShortcutListener>(
        &mut self,
        sounds: &Vec<Sound>,
        listener: &L,
        any_playing: bool,
        playing: &Vec<bool>,
        policy: PolicySettings,
    ) -> (r: Option<DispatchAction>)
        requires
            playing@.len() == sounds@.len(),
        ensures
            old(self).phase == DispatchPhase::DebounceHold ==> r is None && final(self).phase
                == DispatchPhase::DebounceHold,
            old(self).phase == DispatchPhase::Idle ==> r == tick_action(
                sounds@,
                listener.pressed_view(),
                any_playing,
                playing@,
                policy,
            ),
            old(self).phase == DispatchPhase::Idle ==> final(self).phase == (if r is Some {
                DispatchPhase::DebounceHold
            } else {
                DispatchPhase::Idle
            }),
    {
        if self.phase == DispatchPhase::DebounceHold {
            return None;
        }
        let ghost pressed = listener.pressed_view();
        let mut i: usize = 0;
        while i < sounds.len()
            invariant
                i <= sounds@.len(),
                playing@.len() == sounds@.len(),
                self.phase == DispatchPhase::Idle,
                old(self).phase == DispatchPhase::Idle,
                pressed == listener.pressed_view(),
                tick_action(sounds@, pressed, any_playing, playing@, policy) == first_action_from(
                    sounds@,
                    pressed,
                    any_playing,
                    playing@,
                    policy,
                    i as int,
                ),
            decreases sounds@.len() - i,
        {
            if is_triggered(&sounds[i], listener) {
                let act = resolve_action(any_playing, playing[i], policy, i);
                if act.is_some() {
                    self.phase = DispatchPhase::DebounceHold;
                    return act;
                }
            }
            i = i + 1;
        }
        None
    }

    /// The debounce window has ended: shortcuts are evaluated again.
    pub fn debounce_elapsed(&mut self)
        ensures
            final(self).phase == DispatchPhase::Idle,
    {
        self.phase = DispatchPhase::Idle;
    }

    /// How long to wait before the next tick.
    pub fn pause_ms(&self) -> (r: u64)
        ensures
            r == (if self.phase == DispatchPhase::DebounceHold {
                DEBOUNCE_MS
            } else {
                POLL_INTERVAL_MS
            }),
    {
        match self.phase {
            DispatchPhase::DebounceHold => DEBOUNCE_MS,
            DispatchPhase::Idle => POLL_INTERVAL_MS,
        }
    }
}

} // verus!
