use vstd::prelude::*;

verus! {

/// One keyboard key, identified by the name under which the operating
/// system layer reports it (for example `LControl` or `A`).
#[derive(Clone, Debug)]
pub struct SerializableKeycode(pub String);

impl View for SerializableKeycode {
    type V = Seq<char>;

    open spec fn view(&self) -> Seq<char> {
        self.0@
    }
}

impl PartialEq for SerializableKeycode {
    fn eq(&self, other: &SerializableKeycode) -> (r: bool) {
        self.0 == other.0
    }
}

impl vstd::std_specs::cmp::PartialEqSpecImpl for SerializableKeycode {
    open spec fn obeys_eq_spec() -> bool {
        true
    }

    open spec fn eq_spec(&self, other: &SerializableKeycode) -> bool {
        self@ == other@
    }
}

impl Eq for SerializableKeycode {}

impl SerializableKeycode {
    /// A copy of the key that is known to carry the same name.
    pub fn duplicate(&self) -> (r: SerializableKeycode)
        ensures
            r@ == self@,
    {
        SerializableKeycode(self.0.clone())
    }
}

/// The names of a list of keys, in order.
pub open spec fn key_names(keys: Seq<SerializableKeycode>) -> Seq<Seq<char>> {
    keys.map_values(|k: SerializableKeycode| k@)
}

/// Whether a key of the given name occurs in `keys`.
pub open spec fn holds_key(keys: Seq<SerializableKeycode>, name: Seq<char>) -> bool {
    exists|j: int| 0 <= j < keys.len() && #[trigger] keys[j]@ == name
}

/// A combination is pressed when it names at least one key and every key it
/// names is in the snapshot of pressed keys. The empty combination never
/// matches.
pub open spec fn combo_matches(
    combo: Seq<SerializableKeycode>,
    pressed: Seq<SerializableKeycode>,
) -> bool {
    combo.len() > 0 && forall|i: int| 0 <= i < combo.len() ==> holds_key(pressed, #[trigger] combo[i]@)
}

/// Whether `keys` holds a key named like `key`.
pub fn contains_key(keys: &Vec<SerializableKeycode>, key: &SerializableKeycode) -> (r: bool)
    ensures
        r == holds_key(keys@, key@),
{
    let mut i: usize = 0;
    while i < keys.len()
        invariant
            i <= keys.len(),
            forall|j: int| 0 <= j < i ==> #[trigger] keys@[j]@ != key@,
        decreases keys.len() - i,
    {
        if keys[i].0 == key.0 {
            assert(keys@[i as int]@ == key@);
            return true;
        }
        i = i + 1;
    }
    false
}

/// `s` without its leading double quotes.
pub open spec fn trim_start_quotes(s: Seq<char>) -> Seq<char>
    decreases s.len(),
{
    if s.len() > 0 && s[0] == '"' {
        trim_start_quotes(s.drop_first())
    } else {
        s
    }
}

/// `s` without its trailing double quotes.
pub open spec fn trim_end_quotes(s: Seq<char>) -> Seq<char>
    decreases s.len(),
{
    if s.len() > 0 && s.last() == '"' {
        trim_end_quotes(s.drop_last())
    } else {
        s
    }
}

/// A key name as it is shown: without double quotes at either end.
pub open spec fn quote_trimmed(s: Seq<char>) -> Seq<char> {
    trim_end_quotes(trim_start_quotes(s))
}

/// The text of a combination: the shown names of its keys, in order,
/// separated by `" + "`.
pub open spec fn shortcut_text(keys: Seq<SerializableKeycode>) -> Seq<char>
    decreases keys.len(),
{
    if keys.len() == 0 {
        Seq::empty()
    } else if keys.len() == 1 {
        quote_trimmed(keys[0]@)
    } else {
        shortcut_text(keys.drop_last()) + seq![' ', '+', ' '] + quote_trimmed(keys.last()@)
    }
}

/// The name of a key with the double quotes at either end removed.
pub fn trim_quotes(s: &str) -> (r: String)
    ensures
        r@ == quote_trimmed(s@),
{
    let n = s.unicode_len();
    let mut a: usize = 0;
    assert(s@.subrange(0, n as int) =~= s@);
    while a < n && s.get_char(a) == '"'
        invariant
            a <= n,
            n == s@.len(),
            trim_start_quotes(s@) == trim_start_quotes(s@.subrange(a as int, n as int)),
        decreases n - a,
    {
        proof {
            assert(s@.subrange(a as int, n as int).drop_first() =~= s@.subrange(a + 1, n as int));
        }
        a = a + 1;
    }
    proof {
        assert(trim_start_quotes(s@.subrange(a as int, n as int)) == s@.subrange(a as int, n as int));
    }
    let mut b: usize = n;
    while b > a && s.get_char(b - 1) == '"'
        invariant
            a <= b <= n,
            n == s@.len(),
            trim_end_quotes(s@.subrange(a as int, n as int)) == trim_end_quotes(
                s@.subrange(a as int, b as int),
            ),
        decreases b - a,
    {
        proof {
            assert(s@.subrange(a as int, b as int).drop_last() =~= s@.subrange(a as int, b - 1));
        }
        b = b - 1;
    }
    proof {
        assert(trim_end_quotes(s@.subrange(a as int, b as int)) == s@.subrange(a as int, b as int));
    }
    s.substring_char(a, b).to_owned()
}

/// The text shown for a combination, such as `LControl + A`.
pub fn shortcut_as_string(keys: &[SerializableKeycode]) -> (r: String)
    ensures
        r@ == shortcut_text(keys@),
{
    let mut r = String::new();
    let mut i: usize = 0;
    while i < keys.len()
        invariant
            i <= keys.len(),
            r@ == shortcut_text(keys@.subrange(0, i as int)),
        decreases keys.len() - i,
    {
        let piece = trim_quotes(keys[i].0.as_str());
        proof {
            assert(keys@.subrange(0, i + 1).drop_last() =~= keys@.subrange(0, i as int));
            reveal_strlit(" + ");
        }
        if i > 0 {
            r.append(" + ");
        }
        r.append(piece.as_str());
        proof {
            let pre = keys@.subrange(0, i + 1);
            assert(pre.last() == keys@[i as int]);
            if i == 0 {
                assert(r@ =~= shortcut_text(pre));
            } else {
                assert(r@ =~= shortcut_text(pre));
            }
        }
        i = i + 1;
    }
    proof {
        assert(keys@.subrange(0, i as int) =~= keys@);
    }
    r
}

/// Answers whether a key combination is held, from a snapshot of pressed keys.
pub trait ShortcutListener {
    /// The keys reported pressed at the last sample.
    spec fn pressed_view(&self) -> Seq<SerializableKeycode>;

    /// True iff `shortcut` is non-empty and each of its keys is pressed.
    fn is_pressed(&self, shortcut: &Vec<SerializableKeycode>) -> (r: bool)
        ensures
            r == combo_matches(shortcut@, self.pressed_view()),
    ;
}

/// Keeps the latest snapshot of the keys that the keyboard reports pressed.
pub struct DesktopShortcutListener {
    pressed_keys: Vec<SerializableKeycode>,
}

impl View for DesktopShortcutListener {
    type V = Seq<SerializableKeycode>;

    closed spec fn view(&self) -> Seq<SerializableKeycode> {
        self.pressed_keys@
    }
}

impl DesktopShortcutListener {
    /// A listener that has not sampled yet: nothing is pressed.
    pub fn new() -> (r: DesktopShortcutListener)
        ensures
            r@ == Seq::<SerializableKeycode>::empty(),
    {
        DesktopShortcutListener { pressed_keys: Vec::new() }
    }

    /// Replaces the snapshot wholesale with the keys sampled now; nothing of
    /// the previous snapshot is kept.
    pub fn update(&mut self, current_keys: Vec<SerializableKeycode>)
        ensures
            final(self)@ == current_keys@,
    {
        self.pressed_keys = current_keys;
    }

    /// A copy of the current snapshot.
    pub fn get_pressed_keys(&self) -> (r: Vec<SerializableKeycode>)
        ensures
            key_names(r@) == key_names(self@),
    {
        let mut r: Vec<SerializableKeycode> = Vec::new();
        let mut i: usize = 0;
        while i < self.pressed_keys.len()
            invariant
                i <= self.pressed_keys.len(),
                key_names(r@) == key_names(self.pressed_keys@.subrange(0, i as int)),
            decreases self.pressed_keys.len() - i,
        {
            r.push(self.pressed_keys[i].duplicate());
            proof {
                assert(self.pressed_keys@.subrange(0, i + 1) =~= self.pressed_keys@.subrange(
                    0,
                    i as int,
                ).push(self.pressed_keys@[i as int]));
                assert(key_names(r@) =~= key_names(
                    self.pressed_keys@.subrange(0, i as int),
                ).push(self.pressed_keys@[i as int]@));
            }
            i = i + 1;
        }
        proof {
            assert(self.pressed_keys@.subrange(0, i as int) =~= self.pressed_keys@);
        }
        r
    }
}

impl ShortcutListener for DesktopShortcutListener {
    open spec fn pressed_view(&self) -> Seq<SerializableKeycode> {
        self@
    }

    fn is_pressed(&self, shortcut: &Vec<SerializableKeycode>) -> (r: bool) {
        if shortcut.len() == 0 {
            return false;
        }
        let mut i: usize = 0;
        while i < shortcut.len()
            invariant
                i <= shortcut.len(),
                forall|j: int| 0 <= j < i ==> holds_key(self.pressed_keys@, #[trigger] shortcut@[j]@),
            decreases shortcut.len() - i,
        {
            if !contains_key(&self.pressed_keys, &shortcut[i]) {
                return false;
            }
            i = i + 1;
        }
        true
    }
}

} // verus!
