//! Global keyboard shortcuts that trigger short audio clips.
//!
//! The library holds the decisions of the player: which keys make up a
//! shortcut and when it counts as pressed, how a shortcut is recorded, the
//! registry of playback instances owned by the audio thread, the choice of
//! an output device, and the policy that turns held shortcuts into
//! playback commands. The host application performs the I/O around it.

mod keys;
pub use keys::{
    combo_matches, contains_key, holds_key, key_names, quote_trimmed, shortcut_as_string,
    shortcut_text, trim_end_quotes, trim_quotes, trim_start_quotes, DesktopShortcutListener,
    SerializableKeycode, ShortcutListener,
};

mod sound;
pub use sound::Sound;

mod audio;
pub use audio::{
    asset_path, cleanup_due, lemma_fresh_device, lemma_silent_after_stop_all, live_paths, path_of,
    playing_in, registry_of, slot_index, slot_paths, AudioError, DesktopAudio, CLEANUP_INTERVAL_MS,
};

mod device;
pub use device::{device_named, get_device_from_name, DeviceChoice};

mod dispatch;
pub use dispatch::{
    first_action_from, is_triggered, lemma_stop_on_new_switches, lemma_toggle_stops_playing,
    policy_action, resolve_action, tick_action, triggered, DispatchAction, DispatchPhase, Dispatcher, PolicySettings, DEBOUNCE_MS, POLL_INTERVAL_MS,
};

mod recorder;
pub use recorder::{released, ShortcutRecorder};
