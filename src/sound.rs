use vstd::prelude::*;

use crate::keys::SerializableKeycode;

verus! {

/// A configured sound: a clip on disk and the keys that trigger it.
///
/// The asset path doubles as the identity of the sound's playback instance.
/// Whether a sound is playing is never stored here: the audio engine is the
/// only source of that answer.
#[derive(Clone, Debug)]
pub struct Sound {
    pub name: Option<String>,
    pub path: Option<String>,
    pub shortcut: Option<Vec<SerializableKeycode>>,
    /// While set, the shortcut of this sound is ignored by the dispatcher.
    pub editing: bool,
    /// The clip's bytes, where the host keeps them in memory.
    pub data: Option<Vec<u8>>,
}

impl Default for Sound {
    /// A new, empty entry, opened for editing.
    fn default() -> (r: Sound)
        ensures
            r.name is None,
            r.path is None,
            r.shortcut is None,
            r.editing,
            r.data is None,
    {
        Sound { name: None, path: None, shortcut: None, editing: true, data: None }
    }
}

} // verus!
