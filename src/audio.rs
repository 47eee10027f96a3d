use vstd::prelude::*;

use crate::sound::Sound;

verus! {

/// Why a request to the audio layer had no audible effect. None of these is
/// fatal: the request is skipped and the engine carries on.
#[derive(Clone, Copy, Debug, PartialEq, Eq, Structural)]
pub enum AudioError {
    /// The sound has no asset path, or its file cannot be found or opened.
    AssetMissing,
    /// The file's audio content is unsupported or corrupt.
    DecodeError,
    /// The requested output device cannot be opened.
    DeviceUnavailable,
}

/// The asset paths of a list of registry slots, in order.
pub open spec fn slot_paths<S>(slots: Seq<(String, S)>) -> Seq<Seq<char>> {
    slots.map_values(|e: (String, S)| e.0@)
}

/// The slot that holds `p`, where one does.
pub open spec fn slot_index<S>(slots: Seq<(String, S)>, p: Seq<char>) -> int {
    choose|i: int| 0 <= i < slots.len() && slots[i].0@ == p
}

/// The mapping from asset path to playback instance that a list of slots
/// holds.
pub open spec fn registry_of<S>(slots: Seq<(String, S)>) -> Map<Seq<char>, S> {
    Map::new(
        |p: Seq<char>| slot_paths(slots).contains(p),
        |p: Seq<char>| slots[slot_index(slots, p)].1,
    )
}

/// The asset path of a sound, if it has one.
pub open spec fn path_of(sound: Sound) -> Option<Seq<char>> {
    match sound.path {
        Some(p) => Some(p@),
        None => None,
    }
}

/// The paths of the slots that a sweep keeps: those whose instance has not
/// drained.
pub open spec fn live_paths(paths: Seq<Seq<char>>, drained: Seq<bool>) -> Set<Seq<char>> {
    Set::new(|p: Seq<char>| exists|i: int| 0 <= i < paths.len() && !drained[i] && paths[i] == p)
}

/// What `is_playing` answers of a registry: with a sound, whether its path
/// has an instance; with none, whether any instance is registered.
pub open spec fn playing_in<S>(registry: Map<Seq<char>, S>, sound: Option<Sound>) -> bool {
    match sound {
        None => registry.dom() != Set::<Seq<char>>::empty(),
        Some(s) => match path_of(s) {
            Some(p) => registry.contains_key(p),
            None => false,
        },
    }
}

proof fn lemma_lookup<S>(slots: Seq<(String, S)>, i: int)
    requires
        slot_paths(slots).no_duplicates(),
        0 <= i < slots.len(),
    ensures
        registry_of(slots).contains_key(slots[i].0@),
        registry_of(slots)[slots[i].0@] == slots[i].1,
{
    let p = slots[i].0@;
    assert(slot_paths(slots)[i] == p);
    assert(registry_of(slots).dom().contains(p));
    assert(0 <= i < slots.len() && slots[i].0@ == p);
    let j = slot_index(slots, p);
    assert(slot_paths(slots)[j] == slots[j].0@);
    assert(j == i);
    assert(registry_of(slots)[p] == slots[j].1);
}

proof fn lemma_index_of_key<S>(slots: Seq<(String, S)>, p: Seq<char>) -> (i: int)
    requires
        registry_of(slots).contains_key(p),
    ensures
        0 <= i < slots.len(),
        slots[i].0@ == p,
{
    let k = choose|k: int| 0 <= k < slot_paths(slots).len() && slot_paths(slots)[k] == p;
    k
}

proof fn lemma_empty<S>(slots: Seq<(String, S)>)
    requires
        slots.len() == 0,
    ensures
        registry_of(slots) == Map::<Seq<char>, S>::empty(),
        slot_paths(slots).no_duplicates(),
{
    assert(registry_of(slots) =~= Map::<Seq<char>, S>::empty());
}

proof fn lemma_push<S>(slots: Seq<(String, S)>, e: (String, S))
    requires
        slot_paths(slots).no_duplicates(),
        !registry_of(slots).contains_key(e.0@),
    ensures
        slot_paths(slots.push(e)) == slot_paths(slots).push(e.0@),
        slot_paths(slots.push(e)).no_duplicates(),
        registry_of(slots.push(e)) == registry_of(slots).insert(e.0@, e.1),
{
    let n = slots.push(e);
    assert(slot_paths(n) =~= slot_paths(slots).push(e.0@));
    assert(!slot_paths(slots).contains(e.0@));
    assert(slot_paths(n).no_duplicates()) by {
        assert forall|a: int, b: int|
            0 <= a < slot_paths(n).len() && 0 <= b < slot_paths(n).len() && a != b implies
            slot_paths(n)[a] != slot_paths(n)[b] by {
            if a == slots.len() {
                assert(slot_paths(slots)[b] == slot_paths(n)[b]);
            } else if b == slots.len() {
                assert(slot_paths(slots)[a] == slot_paths(n)[a]);
            }
        }
    }
    let m = registry_of(slots).insert(e.0@, e.1);
    assert forall|p: Seq<char>| #[trigger] registry_of(n).contains_key(p) implies m.contains_key(p)
        && registry_of(n)[p] == m[p] by {
        let i = lemma_index_of_key(n, p);
        lemma_lookup(n, i);
        if i < slots.len() {
            assert(n[i] == slots[i]);
            lemma_lookup(slots, i);
        }
    }
    assert forall|p: Seq<char>| #[trigger] m.contains_key(p) implies registry_of(n).contains_key(p) by {
        if p == e.0@ {
            lemma_lookup(n, slots.len() as int);
        } else {
            let i = lemma_index_of_key(slots, p);
            assert(n[i] == slots[i]);
            lemma_lookup(n, i);
        }
    }
    assert(registry_of(n) =~= m);
}

proof fn lemma_remove<S>(slots: Seq<(String, S)>, i: int)
    requires
        slot_paths(slots).no_duplicates(),
        0 <= i < slots.len(),
    ensures
        slot_paths(slots.remove(i)).no_duplicates(),
        registry_of(slots.remove(i)) == registry_of(slots).remove(slots[i].0@),
{
    let n = slots.remove(i);
    let q = slots[i].0@;
    assert(slot_paths(n) =~= slot_paths(slots).remove(i));
    assert(slot_paths(n).no_duplicates()) by {
        assert forall|a: int, b: int|
            0 <= a < slot_paths(n).len() && 0 <= b < slot_paths(n).len() && a != b implies
            slot_paths(n)[a] != slot_paths(n)[b] by {
            let a2 = if a < i { a } else { a + 1 };
            let b2 = if b < i { b } else { b + 1 };
            assert(slot_paths(n)[a] == slot_paths(slots)[a2]);
            assert(slot_paths(n)[b] == slot_paths(slots)[b2]);
        }
    }
    let m = registry_of(slots).remove(q);
    assert forall|p: Seq<char>| #[trigger] registry_of(n).contains_key(p) implies m.contains_key(p)
        && registry_of(n)[p] == m[p] by {
        let j = lemma_index_of_key(n, p);
        lemma_lookup(n, j);
        let j2 = if j < i { j } else { j + 1 };
        assert(n[j] == slots[j2]);
        lemma_lookup(slots, j2);
        assert(slot_paths(slots)[j2] != slot_paths(slots)[i]);
    }
    assert forall|p: Seq<char>| #[trigger] m.contains_key(p) implies registry_of(n).contains_key(p) by {
        let j = lemma_index_of_key(slots, p);
        assert(j != i);
        let j2 = if j < i { j } else { j - 1 };
        assert(n[j2] == slots[j]);
        lemma_lookup(n, j2);
    }
    assert(registry_of(n) =~= m);
}

/// Milliseconds between two sweeps of drained instances that happen
/// regardless of queries.
pub const CLEANUP_INTERVAL_MS: u64 = 3000;

/// Whether the periodic sweep is due, given the time since the last one.
pub fn cleanup_due(since_last_ms: u64) -> (r: bool)
    ensures
        r == (since_last_ms > CLEANUP_INTERVAL_MS),
{
    since_last_ms > CLEANUP_INTERVAL_MS
}

/// The asset to open for playing `sound`: its path, or `AssetMissing` where
/// it has none.
pub fn asset_path(sound: &Sound) -> (r: Result<String, AudioError>)
    ensures
        match path_of(*sound) {
            Some(p) => r is Ok && r->Ok_0@ == p,
            None => r == Err::<String, AudioError>(AudioError::AssetMissing),
        },
{
    match &sound.path {
        Some(p) => Ok(p.clone()),
        None => Err(AudioError::AssetMissing),
    }
}

/// Once `stop_all` has emptied the registry, `is_playing` answers false,
/// for any sound and for none, whatever its sweep finds drained.
pub proof fn lemma_silent_after_stop_all<S>(
    paths: Seq<Seq<char>>,
    drained: Seq<bool>,
    sound: Option<Sound>,
)
    ensures
        !playing_in(Map::<Seq<char>, S>::empty().restrict(live_paths(paths, drained)), sound),
{
    assert(Map::<Seq<char>, S>::empty().restrict(live_paths(paths, drained)).dom() =~= Set::<
        Seq<char>,
    >::empty());
}

/// After a successful `set_device`, nothing is reported playing; a sound
/// played next is then the one instance of the registry, on the new stream,
/// and is reported playing.
pub proof fn lemma_fresh_device<S, H>(
    switched: DesktopAudio<S, H>,
    played: DesktopAudio<S, H>,
    new_stream: H,
    drained: Seq<bool>,
    sound: Sound,
    sink: S,
)
    requires
        switched@ == Map::<Seq<char>, S>::empty(),
        switched.stream() == new_stream,
        path_of(sound) is Some,
        played@ == switched@.insert(path_of(sound)->Some_0, sink),
        played.stream() == switched.stream(),
    ensures
        !playing_in(switched@.restrict(live_paths(switched.paths(), drained)), None),
        played@ == Map::<Seq<char>, S>::empty().insert(path_of(sound)->Some_0, sink),
        played.stream() == new_stream,
        playing_in(played@, Some(sound)),
        playing_in(played@, None),
{
    lemma_silent_after_stop_all::<S>(switched.paths(), drained, None);
    assert(played@.dom().contains(path_of(sound)->Some_0));
}

/// The registry of playback instances of one output stream.
///
/// `S` is a playback instance ("sink") and `H` the bound output stream. The
/// engine decides what is registered, replaced and removed; the instances it
/// hands back are the ones its owner must stop.
pub struct DesktopAudio<S, H> {
    sinks: Vec<(String, S)>,
    stream_handle: H,
}

impl<S, H> View for DesktopAudio<S, H> {
    type V = Map<Seq<char>, S>;

    closed spec fn view(&self) -> Map<Seq<char>, S> {
        registry_of(self.sinks@)
    }
}

impl<S, H> DesktopAudio<S, H> {
    /// At most one instance per asset path.
    #[verifier::type_invariant]
    spec fn inv(&self) -> bool {
        slot_paths(self.sinks@).no_duplicates()
    }

    /// The registered asset paths, in the order in which they were
    /// registered.
    pub closed spec fn paths(&self) -> Seq<Seq<char>> {
        slot_paths(self.sinks@)
    }

    /// The output stream the instances are played on.
    pub closed spec fn stream(&self) -> H {
        self.stream_handle
    }

    /// The registry's paths are distinct, and they are its keys: there are
    /// as many instances as paths.
    pub open spec fn unique_paths(&self) -> bool {
        &&& self.paths().no_duplicates()
        &&& self@.dom() == self.paths().to_set()
        &&& self@.dom().finite()
        &&& self@.dom().len() == self.paths().len()
    }

    proof fn lemma_unique_paths(&self)
        requires
            slot_paths(self.sinks@).no_duplicates(),
        ensures
            self.unique_paths(),
    {
        assert(self@.dom() =~= self.paths().to_set());
        self.paths().unique_seq_to_set();
        vstd::seq_lib::seq_to_set_is_finite(self.paths());
    }

    /// An engine bound to `stream`, with nothing registered.
    pub fn new(stream: H) -> (r: DesktopAudio<S, H>)
        ensures
            r@ == Map::<Seq<char>, S>::empty(),
            r.paths().len() == 0,
            r.stream() == stream,
            r.unique_paths(),
    {
        let r = DesktopAudio { sinks: Vec::new(), stream_handle: stream };
        proof {
            lemma_empty(r.sinks@);
            r.lemma_unique_paths();
        }
        r
    }

    /// The output stream, from which new instances are opened.
    pub fn stream_handle(&self) -> (r: &H)
        ensures
            *r == self.stream(),
    {
        &self.stream_handle
    }

    /// The registered slots, in the order of `paths`.
    pub fn instances(&self) -> (r: &Vec<(String, S)>)
        ensures
            slot_paths(r@) == self.paths(),
            registry_of(r@) == self@,
    {
        &self.sinks
    }

    /// Index of the slot registered under `path`, if any.
    fn find(&self, path: &String) -> (r: Option<usize>)
        ensures
            match r {
                Some(i) => i < self.sinks@.len() && self.sinks@[i as int].0@ == path@,
                None => !self@.contains_key(path@),
            },
    {
        let mut i: usize = 0;
        while i < self.sinks.len()
            invariant
                i <= self.sinks@.len(),
                forall|j: int| 0 <= j < i ==> #[trigger] self.sinks@[j].0@ != path@,
            decreases self.sinks@.len() - i,
        {
            if self.sinks[i].0 == *path {
                return Some(i);
            }
            i = i + 1;
        }
        proof {
            if self@.contains_key(path@) {
                let j = lemma_index_of_key(self.sinks@, path@);
                assert(self.sinks@[j].0@ != path@);
            }
        }
        None
    }

    /// Registers `sink` as the instance of `path`. An instance already
    /// registered under that path is taken out and returned, to be stopped:
    /// the new one replaces it.
    pub fn play(&mut self, path: String, sink: S) -> (replaced: Option<S>)
        ensures
            final(self)@ == old(self)@.insert(path@, sink),
            replaced == (if old(self)@.contains_key(path@) {
                Some(old(self)@[path@])
            } else {
                None
            }),
            final(self).stream() == old(self).stream(),
            final(self).unique_paths(),
    {
        proof {
            use_type_invariant(&*self);
        }
        let found = self.find(&path);
        let mut sinks: Vec<(String, S)> = Vec::new();
        std::mem::swap(&mut sinks, &mut self.sinks);
        let ghost before = sinks@;
        let replaced = match found {
            Some(i) => {
                proof {
                    lemma_lookup(before, i as int);
                    lemma_remove(before, i as int);
                }
                let (_, old_sink) = sinks.remove(i);
                Some(old_sink)
            },
            None => None,
        };
        let ghost mid = sinks@;
        proof {
            assert(!registry_of(mid).contains_key(path@));
        }
        sinks.push((path, sink));
        proof {
            lemma_push(mid, (path, sink));
            assert(registry_of(before).remove(path@).insert(path@, sink) =~= registry_of(
                before,
            ).insert(path@, sink));
        }
        self.sinks = sinks;
        proof {
            self.lemma_unique_paths();
        }
        replaced
    }

    /// Takes out the instance of the sound's path, if one is registered, and
    /// returns it to be stopped. A sound without a path changes nothing.
    pub fn stop(&mut self, sound: &Sound) -> (removed: Option<S>)
        ensures
            final(self)@ == (match path_of(*sound) {
                Some(p) => old(self)@.remove(p),
                None => old(self)@,
            }),
            removed == (match path_of(*sound) {
                Some(p) => if old(self)@.contains_key(p) {
                    Some(old(self)@[p])
                } else {
                    None
                },
                None => None,
            }),
            final(self).stream() == old(self).stream(),
            final(self).unique_paths(),
    {
        proof {
            use_type_invariant(&*self);
        }
        let path = match &sound.path {
            Some(p) => p,
            None => {
                proof {
                    self.lemma_unique_paths();
                    assert(old(self)@ == self@);
                }
                return None;
            },
        };
        match self.find(path) {
            Some(i) => {
                let mut sinks: Vec<(String, S)> = Vec::new();
                std::mem::swap(&mut sinks, &mut self.sinks);
                proof {
                    lemma_lookup(sinks@, i as int);
                    lemma_remove(sinks@, i as int);
                }
                let (_, s) = sinks.remove(i);
                self.sinks = sinks;
                proof {
                    self.lemma_unique_paths();
                }
                Some(s)
            },
            None => {
                proof {
                    self.lemma_unique_paths();
                    assert(old(self)@.remove(path@) =~= old(self)@);
                }
                None
            },
        }
    }

    /// Takes out every instance and returns them, in slot order, to be
    /// stopped. Nothing is registered afterwards.
    pub fn stop_all(&mut self) -> (stopped: Vec<S>)
        ensures
            final(self)@ == Map::<Seq<char>, S>::empty(),
            final(self).paths().len() == 0,
            stopped@.len() == old(self).paths().len(),
            forall|i: int|
                0 <= i < stopped@.len() ==> #[trigger] stopped@[i] == old(self)@[old(
                    self,
                ).paths()[i]],
            final(self).stream() == old(self).stream(),
            final(self).unique_paths(),
    {
        proof {
            use_type_invariant(&*self);
        }
        let mut rest: Vec<(String, S)> = Vec::new();
        std::mem::swap(&mut rest, &mut self.sinks);
        let ghost all = rest@;
        let len = rest.len();
        let mut stopped: Vec<S> = Vec::new();
        let mut i: usize = 0;
        proof {
            assert(rest@ =~= all.subrange(0, len as int));
        }
        while rest.len() > 0
            invariant
                len == all.len(),
                i <= len,
                rest@ == all.subrange(i as int, len as int),
                stopped@.len() == i,
                forall|k: int| 0 <= k < i ==> #[trigger] stopped@[k] == all[k].1,
            decreases len - i,
        {
            let e = rest.remove(0);
            proof {
                assert(e == all[i as int]);
                assert(rest@ =~= all.subrange(i + 1, len as int));
            }
            let (_, s) = e;
            stopped.push(s);
            i = i + 1;
        }
        proof {
            assert forall|k: int| 0 <= k < stopped@.len() implies #[trigger] stopped@[k] == old(
                self,
            )@[old(self).paths()[k]] by {
                lemma_lookup(all, k);
            }
            lemma_empty(self.sinks@);
            self.lemma_unique_paths();
        }
        stopped
    }

    /// Removes the instances whose stream has drained. `drained` gives, for
    /// each slot in the order of `paths`, whether its instance has finished.
    pub fn clean_finished_sinks(&mut self, drained: &Vec<bool>)
        requires
            drained@.len() == old(self).paths().len(),
        ensures
            final(self)@ == old(self)@.restrict(live_paths(old(self).paths(), drained@)),
            final(self).stream() == old(self).stream(),
            final(self).unique_paths(),
    {
        proof {
            use_type_invariant(&*self);
        }
        let mut sinks: Vec<(String, S)> = Vec::new();
        std::mem::swap(&mut sinks, &mut self.sinks);
        let kept = Self::retain_live(sinks, drained);
        self.sinks = kept;
        proof {
            self.lemma_unique_paths();
        }
    }

    /// Sweeps out drained instances (see `clean_finished_sinks`), then
    /// answers: with a sound, whether its path has an instance; with none,
    /// whether any instance is registered.
    pub fn is_playing(&mut self, sound: &Option<Sound>, drained: &Vec<bool>) -> (r: bool)
        requires
            drained@.len() == old(self).paths().len(),
        ensures
            final(self)@ == old(self)@.restrict(live_paths(old(self).paths(), drained@)),
            r == playing_in(final(self)@, *sound),
            final(self).stream() == old(self).stream(),
            final(self).unique_paths(),
    {
        self.clean_finished_sinks(drained);
        proof {
            use_type_invariant(&*self);
        }
        match sound {
            None => {
                if self.sinks.len() == 0 {
                    proof {
                        lemma_empty(self.sinks@);
                    }
                    false
                } else {
                    proof {
                        lemma_lookup(self.sinks@, 0);
                        assert(self@.dom().contains(self.sinks@[0].0@));
                    }
                    true
                }
            },
            Some(s) => match &s.path {
                Some(p) => {
                    let found = self.find(p);
                    proof {
                        if found is Some {
                            lemma_lookup(self.sinks@, found->Some_0 as int);
                        }
                    }
                    found.is_some()
                },
                None => false,
            },
        }
    }

    /// Rebinds the engine to a newly opened output stream. On success every
    /// instance is taken out first (none survives a stream swap) and the
    /// previous stream and the instances to stop are returned. Where the
    /// device could not be opened the engine is left exactly as it was.
    pub fn set_device(&mut self, opened: Result<H, AudioError>) -> (r: Result<(H, Vec<S>), AudioError>)
        ensures
            opened is Err ==> {
                &&& r == Err::<(H, Vec<S>), AudioError>(opened->Err_0)
                &&& final(self)@ == old(self)@
                &&& final(self).stream() == old(self).stream()
            },
            opened is Ok ==> {
                &&& r is Ok
                &&& final(self)@ == Map::<Seq<char>, S>::empty()
                &&& final(self).stream() == opened->Ok_0
                &&& r->Ok_0.0 == old(self).stream()
                &&& r->Ok_0.1@.len() == old(self).paths().len()
                &&& forall|i: int|
                    0 <= i < r->Ok_0.1@.len() ==> #[trigger] r->Ok_0.1@[i] == old(self)@[old(
                        self,
                    ).paths()[i]]
            },
            final(self).unique_paths(),
    {
        proof {
            use_type_invariant(&*self);
        }
        match opened {
            Ok(h) => {
                let stopped = self.stop_all();
                let mut previous = h;
                std::mem::swap(&mut previous, &mut self.stream_handle);
                proof {
                    use_type_invariant(&*self);
                    self.lemma_unique_paths();
                }
                Ok((previous, stopped))
            },
            Err(e) => {
                proof {
                    self.lemma_unique_paths();
                }
                Err(e)
            },
        }
    }

    /// The slots of `sinks` whose `drained` flag is false, in order; the
    /// drained instances are dropped.
    fn retain_live(sinks: Vec<(String, S)>, drained: &Vec<bool>) -> (kept: Vec<(String, S)>)
        requires
            slot_paths(sinks@).no_duplicates(),
            drained@.len() == sinks@.len(),
        ensures
            slot_paths(kept@).no_duplicates(),
            registry_of(kept@) == registry_of(sinks@).restrict(
                live_paths(slot_paths(sinks@), drained@),
            ),
    {
        let ghost all = sinks@;
        let len = sinks.len();
        let ghost n = sinks@.len();
        let mut rest = sinks;
        let mut kept: Vec<(String, S)> = Vec::new();
        let mut i: usize = 0;
        proof {
            lemma_empty(kept@);
            assert(rest@ =~= all.subrange(0, n as int));
        }
        while rest.len() > 0
            invariant
                n == all.len(),
                n == len,
                drained@.len() == n,
                slot_paths(all).no_duplicates(),
                i <= n,
                rest@ == all.subrange(i as int, n as int),
                slot_paths(kept@).no_duplicates(),
                forall|k: int|
                    0 <= k < kept@.len() ==> exists|j: int|
                        0 <= j < i && #[trigger] kept@[k].0@ == all[j].0@,
                registry_of(kept@) == registry_of(all).restrict(
                    live_paths(slot_paths(all).subrange(0, i as int), drained@),
                ),
            decreases n - i,
        {
            let ghost before = kept@;
            let e = rest.remove(0);
            assert(e == all[i as int]);
            proof {
                assert(rest@ =~= all.subrange(i + 1, n as int));
                if registry_of(before).contains_key(e.0@) {
                    let k = lemma_index_of_key(before, e.0@);
                    let j = choose|j: int| 0 <= j < i && #[trigger] before[k].0@ == all[j].0@;
                    assert(slot_paths(all)[j] == slot_paths(all)[i as int]);
                }
            }
            let keep = !drained[i];
            if keep {
                proof {
                    lemma_push(before, e);
                }
                kept.push(e);
            }
            proof {
                let live_after = live_paths(slot_paths(all).subrange(0, i + 1), drained@);
                let live_before = live_paths(slot_paths(all).subrange(0, i as int), drained@);
                assert forall|k: int| 0 <= k < kept@.len() implies exists|j: int|
                    0 <= j < i + 1 && #[trigger] kept@[k].0@ == all[j].0@ by {
                    if k < before.len() {
                        assert(kept@[k] == before[k]);
                    } else {
                        assert(kept@[k].0@ == all[i as int].0@);
                    }
                }
                let full = registry_of(all);
                lemma_lookup(all, i as int);
                if keep {
                    assert(live_after =~= live_before.insert(e.0@)) by {
                        assert(slot_paths(all).subrange(0, i + 1)[i as int] == e.0@);
                        assert forall|p: Seq<char>| live_after.contains(p) implies #[trigger] live_before.insert(
                            e.0@,
                        ).contains(p) by {
                            let j = choose|j: int|
                                0 <= j < i + 1 && !drained@[j] && slot_paths(all).subrange(
                                    0,
                                    i + 1,
                                )[j] == p;
                            if j < i {
                                assert(slot_paths(all).subrange(0, i as int)[j] == p);
                            }
                        }
                        assert forall|p: Seq<char>| live_before.contains(p) implies #[trigger] live_after.contains(
                            p,
                        ) by {
                            let j = choose|j: int|
                                0 <= j < i && !drained@[j] && slot_paths(all).subrange(
                                    0,
                                    i as int,
                                )[j] == p;
                            assert(slot_paths(all).subrange(0, i + 1)[j] == p);
                        }
                    }
                    assert(registry_of(kept@) =~= full.restrict(live_after));
                } else {
                    assert(live_after =~= live_before) by {
                        assert forall|p: Seq<char>| live_after.contains(p) implies #[trigger] live_before.contains(
                            p,
                        ) by {
                            let j = choose|j: int|
                                0 <= j < i + 1 && !drained@[j] && slot_paths(all).subrange(
                                    0,
                                    i + 1,
                                )[j] == p;
                            assert(j != i);
                            assert(slot_paths(all).subrange(0, i as int)[j] == p);
                        }
                        assert forall|p: Seq<char>| live_before.contains(p) implies #[trigger] live_after.contains(
                            p,
                        ) by {
                            let j = choose|j: int|
                                0 <= j < i && !drained@[j] && slot_paths(all).subrange(
                                    0,
                                    i as int,
                                )[j] == p;
                            assert(slot_paths(all).subrange(0, i + 1)[j] == p);
                        }
                    }
                }
            }
            i = i + 1;
        }
        proof {
            assert(all.subrange(0, n as int) =~= all);
            assert(slot_paths(all).subrange(0, n as int) =~= slot_paths(all));
        }
        kept
    }
}

} // verus!
