//! A polyphonic mixer that plays one enveloped voice per key.

use crate::frame::filled;
use crate::mixer::laws::{lemma_changed_keeps_wf, lemma_silent_stays_silent, lemma_ticked_keeps_wf};
use crate::sound::key::Key;
use vstd::prelude::*;
use vstd::seq_lib::lemma_seq_contains_after_push;

verus! {

/// The segment of its envelope that a voice is playing.
#[derive(Clone, Copy, Debug, PartialEq, Eq, Structural)]
pub enum KeyState {
    Starting,
    Maintaining,
    Stopping,
    Stopped,
}

impl KeyState {
    /// Whether a voice in this state is silent and reads no samples.
    pub fn is_stopped(&self) -> (stopped: bool)
        ensures
            stopped == (*self == KeyState::Stopped),
    {
        if let KeyState::Stopped = self {
            true
        } else {
            false
        }
    }
}

/// The samples that a voice in `state` reads from.
pub open spec fn segment<T: Copy>(key: Key<T>, state: KeyState) -> Seq<T> {
    match state {
        KeyState::Starting => key.start@,
        KeyState::Maintaining => key.maintain@,
        KeyState::Stopping => key.stop@,
        KeyState::Stopped => Seq::empty(),
    }
}

/// The state that follows `state` when its segment has been played to the end.
pub open spec fn successor(state: KeyState) -> KeyState {
    match state {
        KeyState::Starting => KeyState::Maintaining,
        KeyState::Maintaining => KeyState::Maintaining,
        KeyState::Stopping => KeyState::Stopped,
        KeyState::Stopped => KeyState::Stopped,
    }
}

/// The state in which a voice comes to rest when it is sent to `state`: a
/// segment with no samples is passed through at once.
pub open spec fn entered<T: Copy>(key: Key<T>, state: KeyState) -> KeyState {
    (Voice { state, pending: None, cursor: 0 }).settled(key).state
}

/// The playback position of one voice, as a mathematical value.
pub struct Voice {
    pub state: KeyState,
    /// A requested state that waits for the next period boundary.
    pub pending: Option<KeyState>,
    pub cursor: nat,
}

impl Voice {
    /// A voice that has never been pressed.
    pub open spec fn idle() -> Voice {
        Voice { state: KeyState::Stopped, pending: None, cursor: 0 }
    }

    /// Unless the voice is stopped, its cursor points into its segment.
    pub open spec fn wf<T: Copy>(self, key: Key<T>) -> bool {
        self.state != KeyState::Stopped ==> self.cursor < segment(key, self.state).len()
    }

    /// The sample under the cursor.
    pub open spec fn sample<T: Copy>(self, key: Key<T>) -> T {
        segment(key, self.state)[self.cursor as int]
    }

    /// Whether a pending request may commit once the cursor stands at `cursor`.
    pub open spec fn on_boundary<T: Copy>(key: Key<T>, cursor: nat) -> bool {
        cursor % (key.frame_size as nat) == 0
    }

    /// The period-boundary check: a pending request commits when the cursor
    /// stands on a multiple of the period, and the new segment starts at 0.
    pub open spec fn committed<T: Copy>(self, key: Key<T>) -> Voice {
        if Self::on_boundary(key, self.cursor) && self.pending is Some {
            Voice { state: self.pending->0, pending: None, cursor: 0 }
        } else {
            self
        }
    }

    /// The end-of-segment check: a voice whose cursor has reached the end of
    /// its segment moves to the following state, at cursor 0.
    pub open spec fn settled<T: Copy>(self, key: Key<T>) -> Voice {
        if self.state != KeyState::Stopped && self.cursor == segment(key, self.state).len() {
            Voice { state: successor(self.state), pending: self.pending, cursor: 0 }
        } else {
            self
        }
    }

    /// Whether the release has been played to its end.
    pub open spec fn faded_out<T: Copy>(self, key: Key<T>) -> bool {
        self.state == KeyState::Stopping && self.cursor == key.stop@.len()
    }

    /// The voice after one sample has been read. The cursor moves on. A voice
    /// that has then played its release to the end is stopped, at cursor 0:
    /// reaching `Stopped` wins over a request that is pending, and the request
    /// is dropped. On any other voice the period-boundary check is applied,
    /// then the end-of-segment check; both can fire on one sample, when a
    /// request commits into an empty segment. A stopped voice stays as it is.
    pub open spec fn advanced<T: Copy>(self, key: Key<T>) -> Voice {
        let moved = Voice { state: self.state, pending: self.pending, cursor: self.cursor + 1 };
        if self.state == KeyState::Stopped {
            self
        } else if moved.faded_out(key) {
            Voice { state: KeyState::Stopped, pending: None, cursor: 0 }
        } else {
            moved.committed(key).settled(key)
        }
    }

    /// The voice after `n` samples have been read.
    pub open spec fn run<T: Copy>(self, key: Key<T>, n: nat) -> Voice
        decreases n,
    {
        if n == 0 {
            self
        } else {
            self.run(key, (n - 1) as nat).advanced(key)
        }
    }

    /// The voice after its key went down: a stopped voice starts its attack at
    /// once (an empty attack is passed through), a sounding one is asked to.
    pub open spec fn pressed<T: Copy>(self, key: Key<T>) -> Voice {
        if self.state == KeyState::Stopped {
            (Voice { state: KeyState::Starting, pending: self.pending, cursor: 0 }).settled(key)
        } else {
            Voice { state: self.state, pending: Some(KeyState::Starting), cursor: self.cursor }
        }
    }

    /// The voice after its key went up.
    pub open spec fn released(self) -> Voice {
        if self.state == KeyState::Stopping || self.state == KeyState::Stopped {
            self
        } else {
            Voice { state: self.state, pending: Some(KeyState::Stopping), cursor: self.cursor }
        }
    }

    /// The voice after a hard stop.
    pub open spec fn silenced(self) -> Voice {
        Voice { state: KeyState::Stopped, pending: self.pending, cursor: self.cursor }
    }
}

/// One voice of the mixer: an envelope and the position it is played at.
pub struct MixerKey<T> {
    key: Key<T>,
    state: KeyState,
    next_state: Option<KeyState>,
    cursor: usize,
}

impl<T: Copy> MixerKey<T> {
    /// The envelope that this voice plays.
    pub closed spec fn envelope(&self) -> Key<T> {
        self.key
    }

    /// The playback position of this voice.
    pub closed spec fn voice(&self) -> Voice {
        Voice { state: self.state, pending: self.next_state, cursor: self.cursor as nat }
    }

    /// The envelope is well formed and the cursor points into the current segment.
    pub open spec fn wf(&self) -> bool {
        self.envelope().wf() && self.voice().wf(self.envelope())
    }

    /// A stopped voice for the envelope `key`, with no request pending.
    pub fn from_key(key: Key<T>) -> (voice: Self)
        ensures
            voice.envelope() == key,
            voice.voice() == Voice::idle(),
            voice.wf() == key.wf(),
    {
        Self { key, state: KeyState::Stopped, next_state: None, cursor: 0 }
    }

    /// The current state.
    pub fn state(&self) -> (state: KeyState)
        ensures
            state == self.voice().state,
    {
        self.state
    }

    /// The state that waits for the next period boundary, if any.
    pub fn pending_state(&self) -> (pending: Option<KeyState>)
        ensures
            pending == self.voice().pending,
    {
        self.next_state
    }

    /// The index of the next sample in the current segment.
    pub fn cursor(&self) -> (cursor: usize)
        ensures
            cursor == self.voice().cursor,
    {
        self.cursor
    }

    /// The samples that the voice is reading from.
    pub fn segment(&self) -> (data: &Vec<T>)
        requires
            self.voice().state != KeyState::Stopped,
        ensures
            data@ == segment(self.envelope(), self.voice().state),
    {
        match self.state {
            KeyState::Starting => &self.key.start,
            KeyState::Maintaining => &self.key.maintain,
            _ => &self.key.stop,
        }
    }

    /// Whether a pending request may commit now: the cursor stands on a
    /// multiple of the period.
    pub fn can_commit(&self) -> (yes: bool)
        requires
            self.envelope().wf(),
        ensures
            yes == Voice::on_boundary(self.envelope(), self.voice().cursor),
    {
        self.cursor % self.key.frame_size == 0
    }

    /// Whether the release has been played to its end.
    fn faded_out(&self) -> (yes: bool)
        ensures
            yes == self.voice().faded_out(self.envelope()),
    {
        match self.state {
            KeyState::Stopping => self.cursor == self.key.stop.len(),
            _ => false,
        }
    }

    /// The end-of-segment check: at the end of its segment the voice moves to
    /// the following state.
    fn settle(&mut self)
        ensures
            final(self).envelope() == old(self).envelope(),
            final(self).voice() == old(self).voice().settled(old(self).envelope()),
    {
        if !self.state.is_stopped() && self.cursor == self.segment().len() {
            self.state = self.next_state();
            self.cursor = 0;
        }
    }

    /// The key went down: a stopped voice starts over at once, a sounding one
    /// is asked to start over at the next period boundary.
    pub fn restart(&mut self)
        requires
            old(self).wf(),
        ensures
            final(self).envelope() == old(self).envelope(),
            final(self).voice() == old(self).voice().pressed(old(self).envelope()),
            final(self).wf(),
    {
        if let KeyState::Stopped = self.state {
            self.cursor = 0;
            self.state = KeyState::Starting;
            self.settle();
        } else {
            self.next_state = Some(KeyState::Starting);
        }
    }

    /// Silences the voice at once, whatever it was playing.
    pub fn force_stop(&mut self)
        ensures
            final(self).envelope() == old(self).envelope(),
            final(self).voice() == old(self).voice().silenced(),
            old(self).envelope().wf() ==> final(self).wf(),
    {
        self.state = KeyState::Stopped;
    }

    /// The key went up: a voice that is neither stopping nor stopped is asked
    /// to begin its release at the next period boundary.
    pub fn stop(&mut self)
        ensures
            final(self).envelope() == old(self).envelope(),
            final(self).voice() == old(self).voice().released(),
            old(self).wf() ==> final(self).wf(),
    {
        match self.state {
            KeyState::Stopping | KeyState::Stopped => (),
            _ => self.next_state = Some(KeyState::Stopping),
        }
    }

    /// The state that follows the current one when its segment ends.
    pub fn next_state(&self) -> (next: KeyState)
        requires
            self.voice().state != KeyState::Stopped,
        ensures
            next == successor(self.voice().state),
    {
        match self.state {
            KeyState::Starting => KeyState::Maintaining,
            KeyState::Maintaining => KeyState::Maintaining,
            _ => KeyState::Stopped,
        }
    }

    /// Reads the sample under the cursor and moves the voice one sample on.
    ///
    /// When the release has been played to its end the voice is stopped, and
    /// a request that is pending is dropped. Otherwise a pending request
    /// commits only when the new cursor is a multiple of the period, and after
    /// that the voice moves to the following state if its cursor stands at the
    /// end of its segment.
    pub fn take_value(&mut self) -> (value: T)
        requires
            old(self).wf(),
            old(self).voice().state != KeyState::Stopped,
        ensures
            value == old(self).voice().sample(old(self).envelope()),
            final(self).envelope() == old(self).envelope(),
            final(self).voice() == old(self).voice().advanced(old(self).envelope()),
            final(self).wf(),
    {
        let ret: T = {
            let data: &Vec<T> = self.segment();
            assert(self.cursor < data.len());
            data[self.cursor]
        };
        self.cursor += 1;
        if self.faded_out() {
            self.state = KeyState::Stopped;
            self.cursor = 0;
            self.next_state = None;
        } else {
            if self.can_commit() {
                if let Some(state) = self.next_state {
                    self.state = state;
                    self.cursor = 0;
                    self.next_state = None;
                }
            }
            self.settle();
        }
        ret
    }
}

/// `partials` are the sums that `plus` makes on its way through `vals`: the
/// first is `init`, and each next one adds the next value to the one before.
pub open spec fn running_sum<T, F: Fn(T, T) -> T>(
    plus: F,
    init: T,
    vals: Seq<T>,
    partials: Seq<T>,
) -> bool {
    &&& partials.len() == vals.len() + 1
    &&& partials[0] == init
    &&& forall|i: int|
        0 <= i < vals.len() ==> plus.ensures((partials[i], #[trigger] vals[i]), partials[i + 1])
}

/// `total` is what `plus` makes of `init` and the values of `vals`, taken in order.
pub open spec fn sums_to<T, F: Fn(T, T) -> T>(plus: F, init: T, vals: Seq<T>, total: T) -> bool {
    exists|partials: Seq<T>| #[trigger]
        running_sum(plus, init, vals, partials) && partials.last() == total
}

/// `out` is the mix of `vals`: silence when there are none, else their sum,
/// started from silence, divided by their number.
pub open spec fn mixes_to<T, F: Fn(T, T) -> T, G: Fn(T, usize) -> T>(
    plus: F,
    over: G,
    silence: T,
    vals: Seq<T>,
    out: T,
) -> bool {
    if vals.len() == 0 {
        out == silence
    } else {
        exists|total: T| #[trigger]
            sums_to(plus, silence, vals, total) && over.ensures((total, vals.len() as usize), out)
    }
}

/// Whether voice `i` still sounds once every voice has moved one sample on.
pub open spec fn survives<T: Copy>(keys: Seq<Key<T>>, voices: Seq<Voice>) -> spec_fn(usize) -> bool {
    |i: usize| voices[i as int].advanced(keys[i as int]).state != KeyState::Stopped
}

/// Every index but `n`.
pub open spec fn other_than(n: usize) -> spec_fn(usize) -> bool {
    |i: usize| i != n
}

/// The positions of all voices and the indices of those that sound, in the
/// order in which they began to.
pub struct Playing {
    pub voices: Seq<Voice>,
    pub active: Seq<usize>,
}

impl Playing {
    /// Every voice is well formed, and the active indices are exactly those of
    /// the voices that are not stopped, each once.
    pub open spec fn wf<T: Copy>(self, keys: Seq<Key<T>>) -> bool {
        &&& self.voices.len() == keys.len() <= usize::MAX
        &&& forall|i: int|
            0 <= i < keys.len() ==> (#[trigger] keys[i]).wf() && self.voices[i].wf(keys[i])
        &&& self.active.no_duplicates()
        &&& forall|j: int| 0 <= j < self.active.len() ==> (#[trigger] self.active[j]) < keys.len()
        &&& forall|i: usize|
            i < keys.len() ==> (#[trigger] self.active.contains(i) <==> self.voices[i as int].state
                != KeyState::Stopped)
    }

    /// The samples under the cursors of the active voices, in the order of `active`.
    pub open spec fn reads<T: Copy>(self, keys: Seq<Key<T>>) -> Seq<T> {
        Seq::new(
            self.active.len(),
            |j: int| self.voices[self.active[j] as int].sample(keys[self.active[j] as int]),
        )
    }

    /// The state after one sample: every voice has moved on, and those that
    /// stopped have left the active indices.
    pub open spec fn ticked<T: Copy>(self, keys: Seq<Key<T>>) -> Playing {
        Playing {
            voices: Seq::new(self.voices.len(), |i: int| self.voices[i].advanced(keys[i])),
            active: self.active.filter(survives(keys, self.voices)),
        }
    }

    /// The state after `t` samples.
    pub open spec fn after<T: Copy>(self, keys: Seq<Key<T>>, t: nat) -> Playing
        decreases t,
    {
        if t == 0 {
            self
        } else {
            self.after(keys, (t - 1) as nat).ticked(keys)
        }
    }

    /// The state after `change` has been applied to voice `n`.
    pub open spec fn changed<T: Copy>(
        self,
        keys: Seq<Key<T>>,
        n: usize,
        change: KeyStateChange,
    ) -> Playing {
        let voice = self.voices[n as int];
        match change {
            KeyStateChange::Press => Playing {
                voices: self.voices.update(n as int, voice.pressed(keys[n as int])),
                active: if voice.state == KeyState::Stopped {
                    self.active.push(n)
                } else {
                    self.active
                },
            },
            KeyStateChange::Release => Playing {
                voices: self.voices.update(n as int, voice.released()),
                active: self.active,
            },
            KeyStateChange::Stop => if voice.state == KeyState::Stopped {
                self
            } else {
                Playing {
                    voices: self.voices.update(n as int, voice.silenced()),
                    active: self.active.filter(other_than(n)),
                }
            },
        }
    }
}

/// What can happen to a key from outside.
#[derive(Clone, Copy, Debug, PartialEq, Eq, Structural)]
pub enum KeyStateChange {
    Press,
    Release,
    Stop,
}

/// One voice per key, and the indices of the voices that currently sound.
pub struct Mixer<T> {
    keys: Vec<MixerKey<T>>,
    active_keys: Vec<usize>,
    silence: T,
}

impl<T: Copy> Mixer<T> {
    /// The envelopes of the voices, by key.
    pub closed spec fn envelopes(&self) -> Seq<Key<T>> {
        Seq::new(self.keys@.len(), |i: int| self.keys@[i].envelope())
    }

    /// The positions of the voices and the active indices.
    pub closed spec fn playing(&self) -> Playing {
        Playing {
            voices: Seq::new(self.keys@.len(), |i: int| self.keys@[i].voice()),
            active: self.active_keys@,
        }
    }

    /// The sample that stands for no sound.
    pub closed spec fn silence(&self) -> T {
        self.silence
    }

    /// Every voice is well formed and the active indices are those of the
    /// voices that sound.
    pub open spec fn wf(&self) -> bool {
        self.playing().wf(self.envelopes())
    }

    /// A mixer with one stopped voice per envelope. `silence` is the sample
    /// that an empty mix consists of and that every sum starts from.
    pub fn new(keys: Vec<Key<T>>, silence: T) -> (mixer: Self)
        requires
            forall|i: int| 0 <= i < keys@.len() ==> (#[trigger] keys@[i]).wf(),
        ensures
            mixer.envelopes() == keys@,
            mixer.playing() == (Playing {
                voices: Seq::new(keys@.len(), |i: int| Voice::idle()),
                active: Seq::empty(),
            }),
            mixer.silence() == silence,
            mixer.wf(),
    {
        let ghost envelopes = keys@;
        assert(envelopes.len() == keys.len());
        let mut voices: Vec<MixerKey<T>> = Vec::new();
        for key in it: keys
            invariant
                it.seq() == envelopes,
                voices@.len() == it.index(),
                forall|i: int|
                    0 <= i < voices@.len() ==> (#[trigger] voices@[i]).envelope() == envelopes[i]
                        && voices@[i].voice() == Voice::idle(),
        {
            voices.push(MixerKey::from_key(key));
        }
        let mixer = Self { keys: voices, active_keys: Vec::new(), silence };
        assert(mixer.envelopes() =~= envelopes);
        assert(mixer.playing().voices =~= Seq::new(envelopes.len(), |i: int| Voice::idle()));
        mixer
    }

    /// The number of keys.
    pub fn key_count(&self) -> (count: usize)
        ensures
            count == self.envelopes().len(),
    {
        self.keys.len()
    }

    /// The number of voices that sound.
    pub fn active_count(&self) -> (count: usize)
        ensures
            count == self.playing().active.len(),
    {
        self.active_keys.len()
    }

    /// The state of voice `n`.
    pub fn key_state(&self, n: usize) -> (state: KeyState)
        requires
            n < self.envelopes().len(),
        ensures
            state == self.playing().voices[n as int].state,
    {
        self.keys[n].state()
    }

    /// Applies a press, a release or a hard stop to voice `n`.
    pub fn change_key_state(&mut self, n: usize, change: KeyStateChange)
        requires
            old(self).wf(),
            n < old(self).envelopes().len(),
        ensures
            final(self).envelopes() == old(self).envelopes(),
            final(self).silence() == old(self).silence(),
            final(self).playing() == old(self).playing().changed(old(self).envelopes(), n, change),
            final(self).wf(),
    {
        let ghost before = self.playing();
        let ghost envelopes = self.envelopes();
        assert(envelopes[n as int].wf() && before.voices[n as int].wf(envelopes[n as int]));
        match change {
            KeyStateChange::Press => {
                if self.keys[n].state().is_stopped() {
                    self.active_keys.push(n);
                }
                self.keys[n].restart();
            },
            KeyStateChange::Release => {
                self.keys[n].stop();
            },
            KeyStateChange::Stop => {
                if !self.keys[n].state().is_stopped() {
                    self.keys[n].force_stop();
                    self.drop_active(n);
                }
            },
        }
        proof {
            assert(self.envelopes() =~= envelopes);
            assert(self.playing().voices =~= before.changed(envelopes, n, change).voices);
            lemma_changed_keeps_wf(envelopes, before, n, change);
        }
    }

    /// Produces the next `size` samples of the mix and moves the voices on.
    ///
    /// Each sample is the sum of what the active voices read, started from
    /// silence by `plus` and divided by `over` by the number of voices that
    /// were active when the sample began; with no active voice it is silence.
    /// Voices that stop leave the mix from the next sample on.
    pub fn generate_frame<F: Fn(T, T) -> T, G: Fn(T, usize) -> T>(
        &mut self,
        size: usize,
        plus: F,
        over: G,
    ) -> (frame: Vec<T>)
        requires
            old(self).wf(),
            forall|a: T, b: T| plus.requires((a, b)),
            forall|v: T, n: usize| n > 0 ==> over.requires((v, n)),
        ensures
            frame@.len() == size,
            forall|t: int|
                0 <= t < size ==> mixes_to(
                    plus,
                    over,
                    old(self).silence(),
                    old(self).playing().after(old(self).envelopes(), t as nat).reads(
                        old(self).envelopes(),
                    ),
                    #[trigger] frame@[t],
                ),
            old(self).playing().active.len() == 0 ==> frame@ == Seq::new(
                size as nat,
                |t: int| old(self).silence(),
            ) && final(self).playing() == old(self).playing(),
            final(self).envelopes() == old(self).envelopes(),
            final(self).silence() == old(self).silence(),
            final(self).playing() == old(self).playing().after(
                old(self).envelopes(),
                size as nat,
            ),
            final(self).wf(),
    {
        let ghost start = self.playing();
        let ghost envelopes = self.envelopes();
        if self.active_keys.len() == 0 {
            let frame: Vec<T> = filled(self.silence, size);
            proof {
                assert forall|u: int| 0 <= u < size implies mixes_to(
                    plus,
                    over,
                    self.silence,
                    start.after(envelopes, u as nat).reads(envelopes),
                    #[trigger] frame@[u],
                ) by {
                    lemma_silent_stays_silent(envelopes, start, u as nat);
                }
                lemma_silent_stays_silent(envelopes, start, size as nat);
            }
            return frame;
        }
        let mut frame: Vec<T> = Vec::new();
        let mut t: usize = 0;
        while t < size
            invariant
                t <= size,
                frame@.len() == t,
                self.wf(),
                self.envelopes() == envelopes,
                self.silence == old(self).silence,
                self.playing() == start.after(envelopes, t as nat),
                forall|a: T, b: T| plus.requires((a, b)),
                forall|v: T, n: usize| n > 0 ==> over.requires((v, n)),
                forall|u: int|
                    0 <= u < t ==> mixes_to(
                        plus,
                        over,
                        self.silence,
                        start.after(envelopes, u as nat).reads(envelopes),
                        #[trigger] frame@[u],
                    ),
            decreases size - t,
        {
            let v: T = self.next_sample(&plus, &over);
            frame.push(v);
            t += 1;
        }
        assert(start.active.len() > 0);
        frame
    }

    /// Mixes one sample and moves every active voice one sample on.
    fn next_sample<F: Fn(T, T) -> T, G: Fn(T, usize) -> T>(&mut self, plus: &F, over: &G) -> (out:
        T)
        requires
            old(self).wf(),
            forall|a: T, b: T| plus.requires((a, b)),
            forall|v: T, n: usize| n > 0 ==> over.requires((v, n)),
        ensures
            mixes_to(
                *plus,
                *over,
                old(self).silence(),
                old(self).playing().reads(old(self).envelopes()),
                out,
            ),
            final(self).envelopes() == old(self).envelopes(),
            final(self).silence() == old(self).silence(),
            final(self).playing() == old(self).playing().ticked(old(self).envelopes()),
            final(self).wf(),
    {
        let ghost start = self.playing();
        let ghost envelopes = self.envelopes();
        let ghost reads = start.reads(envelopes);
        let ghost sounding = survives(envelopes, start.voices);
        let count: usize = self.active_keys.len();
        let mut v: T = self.silence;
        let ghost mut partials: Seq<T> = seq![v];
        let mut kept: Vec<usize> = Vec::new();
        let mut j: usize = 0;
        while j < count
            invariant
                j <= count,
                count == start.active.len(),
                start.wf(envelopes),
                reads == start.reads(envelopes),
                sounding == survives(envelopes, start.voices),
                self.active_keys@ == start.active,
                self.silence == old(self).silence,
                self.keys@.len() == envelopes.len(),
                forall|i: int|
                    0 <= i < envelopes.len() ==> (#[trigger] self.keys@[i]).envelope()
                        == envelopes[i],
                forall|i: usize|
                    i < envelopes.len() ==> (#[trigger] self.keys@[i as int]).voice() == (
                    if start.active.take(j as int).contains(i) {
                        start.voices[i as int].advanced(envelopes[i as int])
                    } else {
                        start.voices[i as int]
                    }),
                kept@ == start.active.take(j as int).filter(sounding),
                running_sum(*plus, self.silence, reads.take(j as int), partials),
                partials.last() == v,
                forall|a: T, b: T| plus.requires((a, b)),
            decreases count - j,
        {
            let key_i: usize = self.active_keys[j];
            let ghost seen = start.active.take(j as int);
            proof {
                assert(start.active[j as int] == key_i);
                assert(start.active.contains(key_i));
                assert(start.active.take(j + 1) =~= seen.push(key_i));
                if seen.contains(key_i) {
                    let k = choose|k: int| 0 <= k < j && seen[k] == key_i;
                    assert(start.active[k] == start.active[j as int]);
                }
                seen.lemma_filter_push(key_i, sounding);
                assert(envelopes[key_i as int].wf());
                assert(start.voices[key_i as int].wf(envelopes[key_i as int]));
            }
            let x: T = self.keys[key_i].take_value();
            v = plus(v, x);
            if !self.keys[key_i].state().is_stopped() {
                kept.push(key_i);
            }
            j += 1;
            proof {
                assert(reads.take(j as int) =~= reads.take(j - 1).push(x));
                partials = partials.push(v);
                assert forall|i: usize| i < envelopes.len() implies (
                #[trigger] self.keys@[i as int]).voice() == (if start.active.take(
                    j as int,
                ).contains(i) {
                    start.voices[i as int].advanced(envelopes[i as int])
                } else {
                    start.voices[i as int]
                }) by {
                    lemma_seq_contains_after_push(seen, key_i, i);
                }
            }
        }
        assert(reads.take(count as int) =~= reads);
        if count > 0 {
            let ghost total = v;
            v = over(v, count);
            assert(sums_to(*plus, self.silence, reads, total) && over.ensures(
                (total, reads.len() as usize),
                v,
            ));
        }
        self.active_keys = kept;
        proof {
            let expected = start.ticked(envelopes);
            let now = self.playing();
            assert(start.active.take(count as int) =~= start.active);
            assert(self.envelopes() =~= envelopes);
            assert forall|i: int| 0 <= i < envelopes.len() implies now.voices[i]
                == expected.voices[i] by {
                let u = i as usize;
                assert(self.keys@[u as int].voice() == now.voices[i]);
                assert(start.active.contains(u) <==> start.voices[i].state != KeyState::Stopped);
            }
            assert(now.voices =~= expected.voices);
            lemma_ticked_keeps_wf(envelopes, start);
        }
        v
    }

    /// Takes `n` out of the active indices.
    fn drop_active(&mut self, n: usize)
        ensures
            final(self).keys == old(self).keys,
            final(self).silence == old(self).silence,
            final(self).active_keys@ == old(self).active_keys@.filter(other_than(n)),
    {
        let ghost active = self.active_keys@;
        let mut kept: Vec<usize> = Vec::new();
        let mut j: usize = 0;
        while j < self.active_keys.len()
            invariant
                j <= active.len(),
                self.active_keys@ == active,
                self.keys == old(self).keys,
                self.silence == old(self).silence,
                kept@ == active.take(j as int).filter(other_than(n)),
            decreases active.len() - j,
        {
            let i: usize = self.active_keys[j];
            proof {
                let seen = active.take(j as int);
                assert(active.take(j + 1) =~= seen.push(i));
                seen.lemma_filter_push(i, other_than(n));
            }
            if i != n {
                kept.push(i);
            }
            j += 1;
        }
        proof {
            assert(active.take(j as int) =~= active);
        }
        self.active_keys = kept;
    }
}

} // verus!
