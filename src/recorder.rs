use vstd::prelude::*;

use crate::keys::{contains_key, holds_key, shortcut_as_string, shortcut_text, SerializableKeycode};

verus! {

/// Whether some key of `previous` is missing from `current`: the user has
/// let go of part of the combination held so far.
pub open spec fn released(
    previous: Seq<SerializableKeycode>,
    current: Seq<SerializableKeycode>,
) -> bool {
    exists|i: int| 0 <= i < previous.len() && !holds_key(current, #[trigger] previous[i]@)
}

/// Records a key combination for the sound in row `id`.
///
/// Recording starts with a click and follows the keys held at each frame;
/// the first time a key of the held combination is let go, that combination
/// becomes the shortcut. `listening_shortcut` names the one row that records
/// at a time.
pub struct ShortcutRecorder {
    pub shortcut: Option<Vec<SerializableKeycode>>,
    pub listening_shortcut: Option<usize>,
    pub last_pressed_keys: Option<Vec<SerializableKeycode>>,
    pub id: usize,
}

impl ShortcutRecorder {
    /// A recorder over the row's shortcut and the shared recording state.
    pub fn new(
        shortcut: Option<Vec<SerializableKeycode>>,
        listening_shortcut: Option<usize>,
        last_pressed_keys: Option<Vec<SerializableKeycode>>,
        id: usize,
    ) -> (r: ShortcutRecorder)
        ensures
            r.shortcut == shortcut,
            r.listening_shortcut == listening_shortcut,
            r.last_pressed_keys == last_pressed_keys,
            r.id == id,
    {
        ShortcutRecorder { shortcut, listening_shortcut, last_pressed_keys, id }
    }

    /// Whether this row is the one recording.
    pub open spec fn listening(&self) -> bool {
        self.listening_shortcut == Some(self.id)
    }

    /// The text on the recorder's button.
    pub open spec fn label_text(&self) -> Seq<char> {
        if self.listening() {
            match self.last_pressed_keys {
                Some(keys) => if keys@.len() > 0 {
                    shortcut_text(keys@)
                } else {
                    "Type a Shortcut..."@
                },
                None => "Type a Shortcut..."@,
            }
        } else {
            match self.shortcut {
                Some(keys) => shortcut_text(keys@),
                None => "No Shortcut"@,
            }
        }
    }

    /// Whether this row is the one recording.
    pub fn is_listening(&self) -> (r: bool)
        ensures
            r == self.listening(),
    {
        match self.listening_shortcut {
            Some(active) => active == self.id,
            None => false,
        }
    }

    /// The text on the recorder's button: the keys held so far while
    /// recording, else the recorded shortcut.
    pub fn label(&self) -> (r: String)
        ensures
            r@ == self.label_text(),
    {
        if self.is_listening() {
            match &self.last_pressed_keys {
                Some(keys) => {
                    if keys.len() > 0 {
                        shortcut_as_string(keys.as_slice())
                    } else {
                        String::from_str("Type a Shortcut...")
                    }
                },
                None => String::from_str("Type a Shortcut..."),
            }
        } else {
            match &self.shortcut {
                Some(keys) => shortcut_as_string(keys.as_slice()),
                None => String::from_str("No Shortcut"),
            }
        }
    }

    /// A click starts recording on this row, from an empty combination.
    pub fn click(&mut self)
        ensures
            final(self).listening_shortcut == Some(old(self).id),
            final(self).last_pressed_keys is None,
            final(self).shortcut == old(self).shortcut,
            final(self).id == old(self).id,
    {
        self.listening_shortcut = Some(self.id);
        self.last_pressed_keys = None;
    }

    /// One frame of recording, given the keys held now. A row that is not
    /// recording is left as it is. Where a key of the non-empty combination
    /// held so far has been let go, that combination becomes the shortcut
    /// and recording ends; otherwise the keys held now are remembered.
    pub fn observe(&mut self, current_keys: Vec<SerializableKeycode>)
        ensures
            !old(self).listening() ==> *final(self) == *old(self),
            old(self).listening() ==> final(self).id == old(self).id,
            old(self).listening() && old(self).last_pressed_keys is Some && old(
                self,
            ).last_pressed_keys->Some_0@.len() > 0 && released(
                old(self).last_pressed_keys->Some_0@,
                current_keys@,
            ) ==> {
                &&& final(self).shortcut == old(self).last_pressed_keys
                &&& final(self).listening_shortcut is None
                &&& final(self).last_pressed_keys is None
            },
            old(self).listening() && !(old(self).last_pressed_keys is Some && old(
                self,
            ).last_pressed_keys->Some_0@.len() > 0 && released(
                old(self).last_pressed_keys->Some_0@,
                current_keys@,
            )) ==> {
                &&& final(self).shortcut == old(self).shortcut
                &&& final(self).listening_shortcut == old(self).listening_shortcut
                &&& final(self).last_pressed_keys == Some(current_keys)
            },
    {
        if !self.is_listening() {
            return;
        }
        let previous = self.last_pressed_keys.take();
        match previous {
            Some(prev) => {
                let mut gone = false;
                let mut i: usize = 0;
                while i < prev.len()
                    invariant
                        i <= prev@.len(),
                        gone == exists|j: int|
                            0 <= j < i && !holds_key(current_keys@, #[trigger] prev@[j]@),
                    decreases prev@.len() - i,
                {
                    if !contains_key(&current_keys, &prev[i]) {
                        gone = true;
                    }
                    i = i + 1;
                }
                if gone && prev.len() > 0 {
                    self.shortcut = Some(prev);
                    self.listening_shortcut = None;
                } else {
                    self.last_pressed_keys = Some(current_keys);
                }
            },
            None => {
                self.last_pressed_keys = Some(current_keys);
            },
        }
    }
}

} // verus!
