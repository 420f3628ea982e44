//! A mixer that overlays whole clips onto a queue of future frames.

use crate::frame::filled;
use vstd::arithmetic::div_mod::{
    lemma_div_plus_one, lemma_fundamental_div_mod, lemma_fundamental_div_mod_converse,
};
use vstd::prelude::*;

verus! {

/// A clip to play: one of the sound bank, or one that the caller brings.
pub enum SoundEvent<T> {
    Known(usize),
    Unknown(Vec<T>),
}

/// The samples that `event` asks to play.
pub open spec fn clip_of<T>(library: Seq<Seq<T>>, event: SoundEvent<T>) -> Seq<T> {
    match event {
        SoundEvent::Known(i) => library[i as int],
        SoundEvent::Unknown(data) => data@,
    }
}

/// The number of frames of `frame_size` samples that `len` samples reach into.
pub open spec fn frames_for(len: nat, frame_size: nat) -> nat {
    ((len + frame_size - 1) / (frame_size as int)) as nat
}

/// `after` is `before` with `clip` added onto it sample by sample from the
/// first frame on, the queue grown by silent frames as far as the clip reaches.
pub open spec fn overlaid<T, F: Fn(T, T) -> T>(
    plus: F,
    silence: T,
    frame_size: nat,
    before: Seq<Seq<T>>,
    clip: Seq<T>,
    after: Seq<Seq<T>>,
) -> bool {
    &&& after.len() == if before.len() >= frames_for(clip.len(), frame_size) {
        before.len()
    } else {
        frames_for(clip.len(), frame_size)
    }
    &&& forall|f: int| 0 <= f < after.len() ==> (#[trigger] after[f]).len() == frame_size
    &&& forall|f: int, c: int|
        0 <= f < after.len() && 0 <= c < frame_size ==> {
            let base = if f < before.len() {
                before[f][c]
            } else {
                silence
            };
            if f * frame_size + c < clip.len() {
                plus.ensures((base, clip[f * frame_size + c]), #[trigger] after[f][c])
            } else {
                after[f][c] == base
            }
        }
}

/// A sound bank and the frames that are waiting to be played.
pub struct Mixer<T> {
    sound_library: Vec<Vec<T>>,
    frame_size: usize,
    next_frames: Vec<Vec<T>>,
    silence: T,
}

impl<T: Copy> Mixer<T> {
    /// The clips of the sound bank.
    pub closed spec fn library(&self) -> Seq<Seq<T>> {
        Seq::new(self.sound_library@.len(), |i: int| self.sound_library@[i]@)
    }

    /// The number of samples in each frame.
    pub closed spec fn frame_size(&self) -> nat {
        self.frame_size as nat
    }

    /// The waiting frames, the next one to play first.
    pub closed spec fn frames(&self) -> Seq<Seq<T>> {
        Seq::new(self.next_frames@.len(), |f: int| self.next_frames@[f]@)
    }

    /// The sample that stands for no sound.
    pub closed spec fn silence(&self) -> T {
        self.silence
    }

    /// Frames are not empty and every waiting frame is a whole frame.
    pub open spec fn wf(&self) -> bool {
        &&& self.frame_size() > 0
        &&& forall|f: int|
            0 <= f < self.frames().len() ==> (#[trigger] self.frames()[f]).len()
                == self.frame_size()
    }

    /// A mixer with no frame waiting. New frames are filled with `silence`.
    pub fn new(sound_library: Vec<Vec<T>>, frame_size: usize, silence: T) -> (mixer: Self)
        requires
            frame_size > 0,
        ensures
            mixer.library() == Seq::new(sound_library@.len(), |i: int| sound_library@[i]@),
            mixer.frame_size() == frame_size,
            mixer.frames() == Seq::<Seq<T>>::empty(),
            mixer.silence() == silence,
            mixer.wf(),
    {
        let mixer = Self { sound_library, frame_size, next_frames: Vec::new(), silence };
        assert(mixer.frames() =~= Seq::<Seq<T>>::empty());
        mixer
    }

    /// The number of clips in the sound bank.
    pub fn slot_count(&self) -> (count: usize)
        ensures
            count == self.library().len(),
    {
        self.sound_library.len()
    }

    /// The number of frames that wait to be played.
    pub fn pending_frames(&self) -> (count: usize)
        ensures
            count == self.frames().len(),
    {
        self.next_frames.len()
    }

    /// Adds the clip of `event` onto the waiting frames, starting at the next
    /// frame to play and appending silent frames where the clip reaches further.
    pub fn push_event<F: Fn(T, T) -> T>(&mut self, event: SoundEvent<T>, plus: F)
        requires
            old(self).wf(),
            event matches SoundEvent::Known(i) ==> i < old(self).library().len(),
            forall|a: T, b: T| plus.requires((a, b)),
        ensures
            overlaid(
                plus,
                old(self).silence(),
                old(self).frame_size(),
                old(self).frames(),
                clip_of(old(self).library(), event),
                final(self).frames(),
            ),
            final(self).library() == old(self).library(),
            final(self).frame_size() == old(self).frame_size(),
            final(self).silence() == old(self).silence(),
            final(self).wf(),
    {
        let ghost before = self.frames();
        let ghost clip = clip_of(self.library(), event);
        let ghost size = self.frame_size as nat;
        let len: usize = match &event {
            SoundEvent::Known(i) => self.sound_library[*i].len(),
            SoundEvent::Unknown(data) => data.len(),
        };
        assert(overlaid(plus, self.silence, size, before, clip.take(0), self.frames())) by {
            assert(frames_for(0, size) == 0) by (nonlinear_arith)
                requires
                    size > 0,
            ;
            lemma_cell_index(size);
        }
        let mut i: usize = 0;
        while i < len
            invariant
                i <= len,
                len == clip.len(),
                clip == clip_of(self.library(), event),
                event matches SoundEvent::Known(k) ==> k < self.library().len(),
                self.library() == old(self).library(),
                self.frame_size == old(self).frame_size,
                self.silence == old(self).silence,
                size == self.frame_size,
                size > 0,
                before == old(self).frames(),
                overlaid(plus, self.silence, size, before, clip.take(i as int), self.frames()),
                forall|a: T, b: T| plus.requires((a, b)),
            decreases len - i,
        {
            let d: T = match &event {
                SoundEvent::Known(k) => self.sound_library[*k][i],
                SoundEvent::Unknown(data) => data[i],
            };
            let frame_i: usize = i / self.frame_size;
            let cursor: usize = i % self.frame_size;
            let ghost queued = self.frames();
            let ghost at = i as int;
            proof {
                lemma_fundamental_div_mod(at, size as int);
                lemma_frames_for_next(at as nat, size);
                assert(size * (at / (size as int)) == (at / (size as int)) * size)
                    by (nonlinear_arith);
                assert(at == frame_i * size + cursor);
            }
            if frame_i >= self.next_frames.len() {
                self.next_frames.push(filled(self.silence, self.frame_size));
            }
            let ghost grown = self.frames();
            proof {
                assert(grown.len() == frame_i + 1 || grown.len() == queued.len());
                assert(frame_i < grown.len());
                assert forall|f: int| 0 <= f < grown.len() implies (#[trigger] grown[f]).len()
                    == size by {
                    if f < queued.len() {
                        assert(grown[f] == queued[f]);
                    }
                }
                assert(grown[frame_i as int].len() == size);
            }
            let cur: T = self.next_frames[frame_i][cursor];
            let sum: T = plus(cur, d);
            self.next_frames[frame_i][cursor] = sum;
            i += 1;
            proof {
                let now = self.frames();
                assert(self.library() =~= old(self).library());
                assert forall|f: int| 0 <= f < now.len() implies (#[trigger] now[f]).len()
                    == size by {
                    assert(grown[f].len() == size);
                }
                assert forall|f: int, c: int| 0 <= f < now.len() && 0 <= c < size implies ({
                    let base = if f < before.len() {
                        before[f][c]
                    } else {
                        self.silence
                    };
                    if f * size + c < clip.take(i as int).len() {
                        plus.ensures((base, clip.take(i as int)[f * size + c]), #[trigger] now[f][c])
                    } else {
                        now[f][c] == base
                    }
                }) by {
                    lemma_cell_index(size);
                    let idx = f * size + c;
                    assert(idx / (size as int) == f && idx % (size as int) == c);
                    if f < queued.len() {
                        assert(queued[f].len() == size);
                        assert(grown[f] == queued[f]);
                    } else {
                        assert(f == frame_i && cursor == 0);
                        assert(grown[f][c] == self.silence);
                        assert(idx >= at);
                    }
                    if f == frame_i && c == cursor {
                        assert(idx == at);
                        assert(now[f][c] == sum);
                        assert(cur == grown[f][c]);
                        assert(clip.take(i as int)[idx] == d);
                    } else {
                        assert(idx != at);
                        assert(now[f][c] == grown[f][c]);
                        if idx < at {
                            assert(clip.take(i as int)[idx] == clip.take(at)[idx]);
                        }
                    }
                }
            }
        }
        proof {
            assert(clip.take(len as int) =~= clip);
        }
    }

    /// Takes the next frame to play out of the queue, if one is waiting.
    pub fn generate_frame(&mut self) -> (frame: Option<Vec<T>>)
        requires
            old(self).wf(),
        ensures
            old(self).frames().len() == 0 ==> frame is None && final(self).frames() == old(
                self,
            ).frames(),
            old(self).frames().len() > 0 ==> frame is Some && frame->0@ == old(self).frames()[0]
                && final(self).frames() == old(self).frames().drop_first(),
            final(self).library() == old(self).library(),
            final(self).frame_size() == old(self).frame_size(),
            final(self).silence() == old(self).silence(),
            final(self).wf(),
    {
        if self.next_frames.len() == 0 {
            None
        } else {
            let frame = self.next_frames.remove(0);
            proof {
                assert(self.frames() =~= old(self).frames().drop_first());
                assert forall|f: int| 0 <= f < self.frames().len() implies (
                #[trigger] self.frames()[f]).len() == self.frame_size() by {
                    assert(old(self).frames()[f + 1].len() == self.frame_size());
                }
            }
            Some(frame)
        }
    }
}

/// A clip of `count` whole frames reaches into exactly `count` frames, so
/// pushing it onto an empty queue leaves `count` frames to take out.
pub proof fn lemma_whole_frames(count: nat, size: nat)
    requires
        size > 0,
    ensures
        frames_for(count * size, size) == count,
{
    if count > 0 {
        lemma_frames_for_next((count * size - 1) as nat, size);
        assert(count * size - 1 == (count - 1) * size + (size - 1)) by (nonlinear_arith);
        assert(0 <= (count - 1) * size) by (nonlinear_arith)
            requires
                count > 0,
        ;
        lemma_fundamental_div_mod_converse(
            count * size - 1,
            size as int,
            count - 1,
            size - 1,
        );
    } else {
        assert(count * size == 0) by (nonlinear_arith)
            requires
                count == 0,
        ;
        assert(frames_for(0, size) == 0) by (nonlinear_arith)
            requires
                size > 0,
        ;
    }
}

/// A clip that ends inside a frame still takes that whole frame.
pub proof fn lemma_partial_frame(len: nat, size: nat)
    requires
        size > 0,
        len % size != 0,
    ensures
        frames_for(len, size) == len / size + 1,
{
    lemma_frames_for_next(len, size);
}

/// A sample index names its frame and its place in the frame, and back.
proof fn lemma_cell_index(size: nat)
    requires
        size > 0,
    ensures
        forall|f: int, c: int|
            0 <= f && 0 <= c < size ==> 0 <= #[trigger] (f * size + c) && (f * size + c) / (
            size as int) == f && (f * size + c) % (size as int) == c,
{
    assert forall|f: int, c: int| 0 <= f && 0 <= c < size implies 0 <= #[trigger] (f * size + c)
        && (f * size + c) / (size as int) == f && (f * size + c) % (size as int) == c by {
        assert(0 <= f * size) by (nonlinear_arith)
            requires
                0 <= f,
                size > 0,
        ;
        lemma_fundamental_div_mod_converse(f * size + c, size as int, f, c);
    }
}

/// The sample after the first `i` lies in frame `i / size`, which is the last
/// frame that `i + 1` samples reach into.
proof fn lemma_frames_for_next(i: nat, size: nat)
    requires
        size > 0,
    ensures
        frames_for(i + 1, size) == i / size + 1,
        i / size <= frames_for(i, size) <= i / size + 1,
        frames_for(i, size) == i / size ==> i % size == 0,
{
    lemma_div_plus_one(i as int, size as int);
    lemma_fundamental_div_mod(i as int, size as int);
    lemma_fundamental_div_mod((i + size - 1) as int, size as int);
    let q = i / size;
    let p = (i + size - 1) / (size as int);
    assert(q <= p <= q + 1 && (p == q ==> i % size == 0)) by (nonlinear_arith)
        requires
            i == size * q + i % size,
            0 <= i % size < size,
            i + size - 1 == size * p + (i + size - 1) % (size as int),
            0 <= (i + size - 1) % (size as int) < size,
            size > 0,
    ;
}

} // verus!
