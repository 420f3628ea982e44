//! The envelope of one key: attack, sustain and release segments.

use crate::frame::{append, copy_of};
use vstd::arithmetic::div_mod::{lemma_fundamental_div_mod, lemma_mod_multiples_basic};
use vstd::prelude::*;

verus! {

/// `n` rounded down to a whole multiple of `x`.
pub open spec fn rounded_down(n: int, x: int) -> int {
    n - n % x
}

/// The largest multiple of `x` that does not exceed `n`.
pub fn smallest_multiple(n: usize, x: usize) -> (r: usize)
    requires
        x > 0,
    ensures
        r == rounded_down(n as int, x as int),
        r % x == 0,
        r <= n < r + x,
{
    let rem: usize = n % x;
    proof {
        lemma_fundamental_div_mod(n as int, x as int);
        lemma_mod_multiples_basic((n / x) as int, x as int);
        assert(n - rem == x * (n / x));
        assert((n / x) * x == x * (n / x)) by (nonlinear_arith);
    }
    if rem > 0 {
        n - rem
    } else {
        n
    }
}

/// The three sample segments that shape one key, and the period they are aligned to.
pub struct Key<T> {
    /// Fade-in, played once when the key goes down.
    pub start: Vec<T>,
    /// One period of the raw waveform, looped while the key is held.
    pub maintain: Vec<T>,
    /// Fade-out, played once after the key is released.
    pub stop: Vec<T>,
    /// Length of one waveform period; state changes only commit on its multiples.
    pub frame_size: usize,
}

/// `out` is `pattern` cycled to the length of `out`, sample `i` scaled by `i / len`.
pub open spec fn fades_in<T, F: Fn(T, usize, usize) -> T>(
    scale: F,
    pattern: Seq<T>,
    out: Seq<T>,
) -> bool {
    forall|i: int|
        0 <= i < out.len() ==> scale.ensures(
            (pattern[i % pattern.len() as int], i as usize, out.len() as usize),
            #[trigger] out[i],
        )
}

/// `out` is `pattern` cycled to the length of `out`, sample `i` scaled by `(len - i - 1) / len`.
pub open spec fn fades_out<T, F: Fn(T, usize, usize) -> T>(
    scale: F,
    pattern: Seq<T>,
    out: Seq<T>,
) -> bool {
    forall|i: int|
        0 <= i < out.len() ==> scale.ensures(
            (pattern[i % pattern.len() as int], (out.len() - i - 1) as usize, out.len() as usize),
            #[trigger] out[i],
        )
}

impl<T: Copy> Key<T> {
    /// The envelope invariant: a non-empty period, a sustain of exactly one
    /// period, and attack and release made of whole periods.
    pub open spec fn wf(&self) -> bool {
        &&& self.frame_size > 0
        &&& self.maintain@.len() == self.frame_size
        &&& self.start@.len() % (self.frame_size as nat) == 0
        &&& self.stop@.len() % (self.frame_size as nat) == 0
    }

    /// This envelope is the one built from `pattern` with the given attack and
    /// release lengths, the gains applied by `scale`.
    pub open spec fn built_from<F: Fn(T, usize, usize) -> T>(
        &self,
        pattern: Seq<T>,
        start_len: nat,
        stop_len: nat,
        scale: F,
    ) -> bool {
        &&& self.frame_size == pattern.len()
        &&& self.maintain@ == pattern
        &&& self.start@.len() == start_len
        &&& self.stop@.len() == stop_len
        &&& fades_in(scale, pattern, self.start@)
        &&& fades_out(scale, pattern, self.stop@)
    }

    /// Builds an envelope whose attack lasts `start_nb_pattern` periods of
    /// `pattern` and whose release lasts `stop_nb_pattern` periods.
    ///
    /// `scale(v, num, den)` applies the gain `num / den` to the sample `v`.
    pub fn from_pattern<F: Fn(T, usize, usize) -> T>(
        pattern: &[T],
        start_nb_pattern: usize,
        stop_nb_pattern: usize,
        scale: F,
    ) -> (key: Self)
        requires
            pattern@.len() * start_nb_pattern <= usize::MAX,
            pattern@.len() * stop_nb_pattern <= usize::MAX,
            forall|v: T, num: usize, den: usize| num < den ==> scale.requires((v, num, den)),
        ensures
            key.built_from(
                pattern@,
                pattern@.len() * start_nb_pattern as nat,
                pattern@.len() * stop_nb_pattern as nat,
                scale,
            ),
            pattern@.len() > 0 ==> key.wf(),
    {
        let period: usize = pattern.len();
        let start_len: usize = period * start_nb_pattern;
        let mut start: Vec<T> = Vec::new();
        let mut i: usize = 0;
        while i < start_len
            invariant
                i <= start_len,
                period == pattern@.len(),
                start_len == period * start_nb_pattern,
                start@.len() == i,
                forall|v: T, num: usize, den: usize| num < den ==> scale.requires((v, num, den)),
                forall|j: int|
                    0 <= j < i ==> scale.ensures(
                        (pattern@[j % period as int], j as usize, start_len),
                        #[trigger] start@[j],
                    ),
            decreases start_len - i,
        {
            assert(period > 0) by (nonlinear_arith)
                requires
                    i < start_len,
                    start_len == period * start_nb_pattern,
            ;
            let v: T = pattern[i % period];
            start.push(scale(v, i, start_len));
            i += 1;
        }
        let stop_len: usize = period * stop_nb_pattern;
        let mut stop: Vec<T> = Vec::new();
        let mut i: usize = 0;
        while i < stop_len
            invariant
                i <= stop_len,
                period == pattern@.len(),
                stop_len == period * stop_nb_pattern,
                stop@.len() == i,
                forall|v: T, num: usize, den: usize| num < den ==> scale.requires((v, num, den)),
                forall|j: int|
                    0 <= j < i ==> scale.ensures(
                        (pattern@[j % period as int], (stop_len - j - 1) as usize, stop_len),
                        #[trigger] stop@[j],
                    ),
            decreases stop_len - i,
        {
            assert(period > 0) by (nonlinear_arith)
                requires
                    i < stop_len,
                    stop_len == period * stop_nb_pattern,
            ;
            let v: T = pattern[i % period];
            stop.push(scale(v, stop_len - i - 1, stop_len));
            i += 1;
        }
        let maintain: Vec<T> = copy_of(pattern);
        proof {
            if period > 0 {
                lemma_mod_multiples_basic(start_nb_pattern as int, period as int);
                lemma_mod_multiples_basic(stop_nb_pattern as int, period as int);
                assert(period * start_nb_pattern == start_nb_pattern * period) by (nonlinear_arith);
                assert(period * stop_nb_pattern == stop_nb_pattern * period) by (nonlinear_arith);
            }
        }
        Key { start, maintain, stop, frame_size: period }
    }

    /// Builds an envelope whose attack and release last at most `start_samples`
    /// and `stop_samples` samples, each rounded down to whole periods of `pattern`.
    pub fn from_pattern_timed<F: Fn(T, usize, usize) -> T>(
        pattern: &[T],
        start_samples: usize,
        stop_samples: usize,
        scale: F,
    ) -> (key: Self)
        requires
            pattern@.len() > 0,
            forall|v: T, num: usize, den: usize| num < den ==> scale.requires((v, num, den)),
        ensures
            key.built_from(
                pattern@,
                rounded_down(start_samples as int, pattern@.len() as int) as nat,
                rounded_down(stop_samples as int, pattern@.len() as int) as nat,
                scale,
            ),
            key.wf(),
    {
        let period: usize = pattern.len();
        let nb_start_cycle: usize = smallest_multiple(start_samples, period) / period;
        let nb_stop_cycle: usize = smallest_multiple(stop_samples, period) / period;
        proof {
            lemma_fundamental_div_mod(
                rounded_down(start_samples as int, period as int),
                period as int,
            );
            lemma_fundamental_div_mod(
                rounded_down(stop_samples as int, period as int),
                period as int,
            );
        }
        Self::from_pattern(pattern, nb_start_cycle, nb_stop_cycle, scale)
    }

    /// The whole envelope played through once: attack, one sustain period, release.
    pub fn to_sound(&self) -> (sound: Vec<T>)
        ensures
            sound@ == self.start@ + self.maintain@ + self.stop@,
    {
        let mut sound: Vec<T> = copy_of(self.start.as_slice());
        append(&mut sound, self.maintain.as_slice());
        append(&mut sound, self.stop.as_slice());
        sound
    }
}

} // verus!
