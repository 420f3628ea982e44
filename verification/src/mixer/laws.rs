//! What holds of a single voice, and of all voices together, over many samples.

use crate::mixer::key_state_based::{
    entered, mixes_to, other_than, running_sum, segment, successor, sums_to, survives, KeyState,
    KeyStateChange, Playing, Voice,
};
use crate::sound::key::Key;
use vstd::arithmetic::div_mod::{
    lemma_basic_div, lemma_fundamental_div_mod, lemma_fundamental_div_mod_converse,
    lemma_mod_self_0, lemma_small_mod,
};
use vstd::prelude::*;

verus! {

/// The first period boundary after `cursor`.
pub open spec fn next_boundary<T: Copy>(key: Key<T>, cursor: nat) -> nat {
    ((cursor / (key.frame_size as nat) + 1) * key.frame_size) as nat
}

/// Positions strictly between `cursor` and the next boundary are no boundaries,
/// and the next boundary lies within every whole number of periods that
/// reaches beyond `cursor`.
proof fn lemma_between_boundaries(period: nat, cursor: nat, n: nat, len: nat)
    requires
        period > 0,
        len % period == 0,
        cursor < len,
        0 < n,
        cursor + n < (cursor / period + 1) * period,
    ensures
        (cursor + n) % period != 0,
        cursor + n < len,
        (cursor / period + 1) * period <= len,
{
    let q = cursor / period;
    lemma_fundamental_div_mod(cursor as int, period as int);
    lemma_fundamental_div_mod(len as int, period as int);
    let k = len / period;
    assert(len == period * k);
    assert(q < k) by (nonlinear_arith)
        requires
            cursor < period * k,
            cursor == period * q + cursor % period,
            0 <= cursor % period,
            period > 0,
    ;
    assert((q + 1) * period <= len) by (nonlinear_arith)
        requires
            q + 1 <= k,
            len == period * k,
            period > 0,
    ;
    assert((q + 1) * period == period * q + period) by (nonlinear_arith);
    let r = (cursor + n - period * q) as int;
    assert(0 < r < period);
    lemma_fundamental_div_mod_converse((cursor + n) as int, period as int, q as int, r);
}

/// Running `a + b` samples is running `a` samples, then `b` more.
pub proof fn lemma_run_split<T: Copy>(key: Key<T>, v: Voice, a: nat, b: nat)
    ensures
        v.run(key, a + b) == v.run(key, a).run(key, b),
    decreases b,
{
    if b > 0 {
        lemma_run_split(key, v, a, (b - 1) as nat);
        assert((a + b - 1) as nat == a + (b - 1) as nat);
    }
}

/// A voice only moves along its segment while it reaches neither the end of
/// the segment nor, with a request pending, a period boundary.
pub proof fn lemma_run_within<T: Copy>(key: Key<T>, v: Voice, n: nat)
    requires
        key.wf(),
        v.state != KeyState::Stopped,
        v.cursor + n < segment(key, v.state).len(),
        v.pending is Some ==> v.cursor + n < next_boundary(key, v.cursor),
    ensures
        v.run(key, n) == (Voice { state: v.state, pending: v.pending, cursor: v.cursor + n }),
    decreases n,
{
    if n > 0 {
        lemma_run_within(key, v, (n - 1) as nat);
        if v.pending is Some {
            let period = key.frame_size as nat;
            let bound = next_boundary(key, v.cursor);
            assert(bound % period == 0) by (nonlinear_arith)
                requires
                    bound == (v.cursor / period + 1) * period,
                    period > 0,
            ;
            assert(v.cursor < bound) by {
                lemma_fundamental_div_mod(v.cursor as int, period as int);
                assert((v.cursor / period + 1) * period == period * (v.cursor / period) + period)
                    by (nonlinear_arith);
            }
            lemma_between_boundaries(period, v.cursor, n, bound);
        }
    }
}

/// A request that is pending never commits before the next period boundary:
/// until then the voice keeps its state and the request.
pub proof fn lemma_pending_waits_for_boundary<T: Copy>(key: Key<T>, v: Voice, n: nat)
    requires
        key.wf(),
        v.wf(key),
        v.state != KeyState::Stopped,
        v.cursor + n < next_boundary(key, v.cursor),
    ensures
        v.run(key, n) == (Voice { state: v.state, pending: v.pending, cursor: v.cursor + n }),
{
    let len = segment(key, v.state).len();
    let period = key.frame_size as nat;
    if n > 0 {
        assert(len % period == 0) by {
            match v.state {
                KeyState::Starting => assert(len == key.start@.len()),
                KeyState::Maintaining => {
                    assert(len == period);
                    lemma_mod_self_0(period as int);
                },
                _ => assert(len == key.stop@.len()),
            }
        }
        lemma_between_boundaries(period, v.cursor, n, len);
    }
    lemma_run_within(key, v, n);
}

/// Whether a releasing voice is in the last period of its release: the next
/// boundary is the end of the release.
pub open spec fn on_last_release_period<T: Copy>(key: Key<T>, v: Voice) -> bool {
    v.state == KeyState::Stopping && next_boundary(key, v.cursor) == key.stop@.len()
}

/// A pending request commits exactly when the cursor reaches the next period
/// boundary, unless the voice is in the last period of its release.
pub proof fn lemma_pending_commits_at_boundary<T: Copy>(key: Key<T>, v: Voice)
    requires
        key.wf(),
        v.wf(key),
        v.state != KeyState::Stopped,
        v.pending is Some,
        !on_last_release_period(key, v),
    ensures
        v.cursor < next_boundary(key, v.cursor),
        v.run(key, (next_boundary(key, v.cursor) - v.cursor) as nat) == (Voice {
            state: entered(key, v.pending->0),
            pending: None,
            cursor: 0,
        }),
{
    let period = key.frame_size as nat;
    let bound = next_boundary(key, v.cursor);
    lemma_fundamental_div_mod(v.cursor as int, period as int);
    assert((v.cursor / period + 1) * period == period * (v.cursor / period) + period)
        by (nonlinear_arith);
    assert(bound % period == 0) by (nonlinear_arith)
        requires
            bound == (v.cursor / period + 1) * period,
            period > 0,
    ;
    let d = (bound - v.cursor) as nat;
    lemma_pending_waits_for_boundary(key, v, (d - 1) as nat);
}

/// A voice in the last period of its release is stopped when the release
/// ends, whether a request is pending or not: reaching the end wins, and the
/// request is dropped.
pub proof fn lemma_release_end_wins<T: Copy>(key: Key<T>, v: Voice)
    requires
        key.wf(),
        v.wf(key),
        on_last_release_period(key, v),
    ensures
        v.run(key, (key.stop@.len() - v.cursor) as nat) == (Voice {
            state: KeyState::Stopped,
            pending: None,
            cursor: 0,
        }),
{
    let d = (key.stop@.len() - v.cursor) as nat;
    lemma_pending_waits_for_boundary(key, v, (d - 1) as nat);
}

/// With no request pending, a voice plays its segment to the end and then
/// moves to the following state.
pub proof fn lemma_segment_plays_out<T: Copy>(key: Key<T>, v: Voice)
    requires
        key.wf(),
        v.wf(key),
        v.state != KeyState::Stopped,
        v.pending is None,
    ensures
        v.run(key, (segment(key, v.state).len() - v.cursor) as nat) == (Voice {
            state: entered(key, successor(v.state)),
            pending: None,
            cursor: 0,
        }),
{
    let d = (segment(key, v.state).len() - v.cursor) as nat;
    lemma_run_within(key, v, (d - 1) as nat);
}

/// A sustaining voice with no request pending loops over its one period.
pub proof fn lemma_sustain_loops<T: Copy>(key: Key<T>, n: nat)
    requires
        key.wf(),
    ensures
        (Voice { state: KeyState::Maintaining, pending: None, cursor: 0 }).run(key, n) == (Voice {
            state: KeyState::Maintaining,
            pending: None,
            cursor: n % (key.frame_size as nat),
        }),
    decreases n,
{
    let period = key.frame_size as nat;
    if n == 0 {
        lemma_small_mod(0, period);
    } else {
        lemma_sustain_loops(key, (n - 1) as nat);
        let m = (n - 1) as nat;
        lemma_fundamental_div_mod(m as int, period as int);
        let q = m / period;
        let r = m % period;
        if r + 1 == period {
            assert(n == period * (q + 1)) by (nonlinear_arith)
                requires
                    n == m + 1,
                    m == period * q + r,
                    r + 1 == period,
            ;
            lemma_fundamental_div_mod_converse(n as int, period as int, (q + 1) as int, 0);
        } else {
            lemma_fundamental_div_mod_converse(n as int, period as int, q as int, (r + 1) as int);
        }
    }
}

/// Where a freshly pressed voice stands after `n` samples with the key held.
pub proof fn lemma_held_position<T: Copy>(key: Key<T>, n: nat)
    requires
        key.wf(),
    ensures
        Voice::idle().pressed(key).run(key, n) == (if n < key.start@.len() {
            Voice { state: KeyState::Starting, pending: None, cursor: n }
        } else {
            Voice {
                state: KeyState::Maintaining,
                pending: None,
                cursor: ((n - key.start@.len()) as nat) % (key.frame_size as nat),
            }
        }),
{
    let v = Voice::idle().pressed(key);
    let attack = key.start@.len();
    if n < attack {
        lemma_run_within(key, v, n);
    } else {
        if attack > 0 {
            lemma_segment_plays_out(key, v);
        }
        lemma_run_split(key, v, attack, (n - attack) as nat);
        lemma_sustain_loops(key, (n - attack) as nat);
    }
}

/// How many sustain periods a voice plays when its key is released after `n` samples.
pub open spec fn sustain_periods<T: Copy>(key: Key<T>, n: nat) -> nat {
    if n < key.start@.len() {
        0
    } else {
        ((n - key.start@.len()) as nat) / (key.frame_size as nat) + 1
    }
}

/// The number of samples a voice produces from press to silence when its key
/// is released after `n` samples.
pub open spec fn lifetime<T: Copy>(key: Key<T>, n: nat) -> nat {
    key.start@.len() + sustain_periods(key, n) * key.maintain@.len() + key.stop@.len()
}

/// A voice that is pressed, held for `n` samples and then released sounds for
/// the whole attack, a whole number of sustain periods and the whole release:
/// it is silent after exactly `lifetime(key, n)` samples and not before.
///
/// The release must not come earlier than one period before the end of the
/// attack; an earlier release cuts the attack short at the next boundary.
pub proof fn lemma_press_release_lifetime<T: Copy>(key: Key<T>, n: nat)
    requires
        key.wf(),
        n + key.frame_size >= key.start@.len(),
    ensures
        n < lifetime(key, n),
        forall|m: nat| m <= n ==> Voice::idle().pressed(key).run(key, m).state != KeyState::Stopped,
        forall|m: nat|
            m < lifetime(key, n) - n ==> (#[trigger] Voice::idle().pressed(key).run(
                key,
                n,
            ).released().run(key, m)).state != KeyState::Stopped,
        Voice::idle().pressed(key).run(key, n).released().run(
            key,
            (lifetime(key, n) - n) as nat,
        ).state == KeyState::Stopped,
{
    let period = key.frame_size as nat;
    let attack = key.start@.len();
    let release = key.stop@.len();
    let held = Voice::idle().pressed(key).run(key, n);
    let freed = held.released();
    lemma_held_position(key, n);
    assert forall|m: nat| m <= n implies Voice::idle().pressed(key).run(key, m).state
        != KeyState::Stopped by {
        lemma_held_position(key, m);
    }
    // The samples left until the release begins.
    lemma_pending_commits_at_boundary(key, freed);
    let bound = next_boundary(key, freed.cursor);
    let d = (bound - freed.cursor) as nat;
    let turning = freed.run(key, d);
    assert(n + d == attack + sustain_periods(key, n) * period) by {
        if n < attack {
            lemma_fundamental_div_mod(attack as int, period as int);
            lemma_fundamental_div_mod(n as int, period as int);
            let k = attack / period;
            let q = n / period;
            assert(q + 1 == k) by (nonlinear_arith)
                requires
                    attack == period * k,
                    n == period * q + n % period,
                    0 <= n % period < period,
                    n < attack,
                    n + period >= attack,
                    period > 0,
            ;
            assert((q + 1) * period == attack) by (nonlinear_arith)
                requires
                    q + 1 == k,
                    attack == period * k,
            ;
            assert(sustain_periods(key, n) * period == 0) by (nonlinear_arith)
                requires
                    sustain_periods(key, n) == 0,
            ;
        } else {
            let j = (n - attack) as nat;
            lemma_fundamental_div_mod(j as int, period as int);
            let c = j % period;
            lemma_small_mod(c, period);
            assert(c / period == 0) by {
                lemma_basic_div(c as int, period as int);
            }
            assert(bound == period) by (nonlinear_arith)
                requires
                    bound == (c / period + 1) * period,
                    c / period == 0,
            ;
            assert((j / period + 1) * period == period * (j / period) + period)
                by (nonlinear_arith);
        }
    }
    assert forall|m: nat| m < lifetime(key, n) - n implies (#[trigger] freed.run(key, m)).state
        != KeyState::Stopped by {
        if m < d {
            lemma_pending_waits_for_boundary(key, freed, m);
        } else {
            lemma_run_split(key, freed, d, (m - d) as nat);
            lemma_run_within(key, turning, (m - d) as nat);
        }
    }
    if release > 0 {
        lemma_segment_plays_out(key, turning);
        lemma_run_split(key, freed, d, release);
    }
}

/// While no voice is active nothing changes from sample to sample.
pub proof fn lemma_silent_stays_silent<T: Copy>(keys: Seq<Key<T>>, playing: Playing, t: nat)
    requires
        playing.wf(keys),
        playing.active.len() == 0,
    ensures
        playing.after(keys, t) == playing,
    decreases t,
{
    if t > 0 {
        lemma_silent_stays_silent(keys, playing, (t - 1) as nat);
        let next = playing.ticked(keys);
        playing.active.lemma_filter_len(survives(keys, playing.voices));
        assert(next.active =~= playing.active);
        assert forall|i: int| 0 <= i < playing.voices.len() implies next.voices[i]
            == playing.voices[i] by {
            let u = i as usize;
            assert(playing.active.contains(u) <==> playing.voices[i].state != KeyState::Stopped);
        }
        assert(next.voices =~= playing.voices);
    }
}

/// One more index has been looked at while filtering `seen` into `held`.
proof fn lemma_filter_step(
    seen: Seq<usize>,
    held: Seq<usize>,
    i: usize,
    pred: spec_fn(usize) -> bool,
)
    requires
        held == seen.filter(pred),
        held.no_duplicates(),
        forall|x: usize| held.contains(x) <==> seen.contains(x) && pred(x),
        !seen.contains(i),
    ensures
        pred(i) ==> held.push(i) == seen.push(i).filter(pred) && held.push(i).no_duplicates()
            && forall|x: usize| held.push(i).contains(x) <==> seen.push(i).contains(x) && pred(x),
        !pred(i) ==> held == seen.push(i).filter(pred) && forall|x: usize|
            held.contains(x) <==> seen.push(i).contains(x) && pred(x),
{
    seen.lemma_filter_push(i, pred);
    lemma_push_contains(seen, i);
    lemma_push_contains(held, i);
    assert(held.contains(i) <==> seen.contains(i) && pred(i));
    if pred(i) {
        assert forall|x: usize| held.push(i).contains(x) <==> seen.push(i).contains(x) && pred(
            x,
        ) by {
            assert(held.contains(x) <==> seen.contains(x) && pred(x));
        }
    } else {
        assert forall|x: usize| held.contains(x) <==> seen.push(i).contains(x) && pred(x) by {
            assert(held.contains(x) <==> seen.contains(x) && pred(x));
        }
    }
}

/// What a sequence contains after a push.
proof fn lemma_push_contains<A>(s: Seq<A>, x: A)
    ensures
        forall|y: A| s.push(x).contains(y) <==> s.contains(y) || y == x,
        s.no_duplicates() && !s.contains(x) ==> s.push(x).no_duplicates(),
{
    assert forall|y: A| s.push(x).contains(y) implies s.contains(y) || y == x by {
        let k = choose|k: int| 0 <= k < s.push(x).len() && s.push(x)[k] == y;
        if k < s.len() {
            assert(s[k] == y);
        }
    }
    assert forall|y: A| s.contains(y) || y == x implies s.push(x).contains(y) by {
        if s.contains(y) {
            let k = choose|k: int| 0 <= k < s.len() && s[k] == y;
            assert(s.push(x)[k] == y);
        } else {
            assert(s.push(x)[s.len() as int] == y);
        }
    }
}

/// Filtering keeps a sequence free of duplicates, and keeps exactly the
/// items that satisfy the predicate.
pub proof fn lemma_filter_keeps(s: Seq<usize>, pred: spec_fn(usize) -> bool)
    requires
        s.no_duplicates(),
    ensures
        s.filter(pred).no_duplicates(),
        forall|x: usize| s.filter(pred).contains(x) <==> s.contains(x) && pred(x),
    decreases s.len(),
{
    if s.len() == 0 {
        s.lemma_filter_len(pred);
        assert(s.filter(pred) =~= Seq::<usize>::empty());
    } else {
        let front = s.drop_last();
        let last = s.last();
        lemma_filter_keeps(front, pred);
        assert(s =~= front.push(last));
        if front.contains(last) {
            let k = choose|k: int| 0 <= k < front.len() && front[k] == last;
            assert(s[k] == s[s.len() - 1]);
        }
        lemma_filter_step(front, front.filter(pred), last, pred);
    }
}

/// One sample on, the voices are still well formed and the active indices
/// are still those of the voices that sound.
pub proof fn lemma_ticked_keeps_wf<T: Copy>(keys: Seq<Key<T>>, playing: Playing)
    requires
        playing.wf(keys),
    ensures
        playing.ticked(keys).wf(keys),
{
    let next = playing.ticked(keys);
    let sounding = survives(keys, playing.voices);
    lemma_filter_keeps(playing.active, sounding);
    assert forall|i: int| 0 <= i < keys.len() implies (#[trigger] keys[i]).wf()
        && next.voices[i].wf(keys[i]) by {
        assert(playing.voices[i].wf(keys[i]));
    }
    assert forall|j: int| 0 <= j < next.active.len() implies (#[trigger] next.active[j])
        < keys.len() by {
        let x = next.active[j];
        assert(next.active.contains(x));
        assert(playing.active.contains(x) && sounding(x));
        let k = choose|k: int| 0 <= k < playing.active.len() && playing.active[k] == x;
        assert(playing.active[k] < keys.len());
    }
    assert forall|i: usize| i < keys.len() implies (#[trigger] next.active.contains(i)
        <==> next.voices[i as int].state != KeyState::Stopped) by {
        assert(playing.active.contains(i) <==> playing.voices[i as int].state
            != KeyState::Stopped);
    }
}

/// A press, a release or a hard stop of voice `n` keeps the voices well
/// formed and the active indices in step with them.
pub proof fn lemma_changed_keeps_wf<T: Copy>(
    keys: Seq<Key<T>>,
    playing: Playing,
    n: usize,
    change: KeyStateChange,
)
    requires
        playing.wf(keys),
        n < keys.len(),
    ensures
        playing.changed(keys, n, change).wf(keys),
{
    let next = playing.changed(keys, n, change);
    lemma_push_contains(playing.active, n);
    lemma_filter_keeps(playing.active, other_than(n));
    assert(keys[n as int].wf() && playing.voices[n as int].wf(keys[n as int]));
    assert(playing.active.contains(n) <==> playing.voices[n as int].state != KeyState::Stopped);
    assert forall|i: int| 0 <= i < keys.len() implies (#[trigger] keys[i]).wf()
        && next.voices[i].wf(keys[i]) by {
        assert(playing.voices[i].wf(keys[i]));
    }
    assert forall|j: int| 0 <= j < next.active.len() implies (#[trigger] next.active[j])
        < keys.len() by {
        let x = next.active[j];
        assert(next.active.contains(x));
        if x != n {
            assert(playing.active.contains(x));
            let k = choose|k: int| 0 <= k < playing.active.len() && playing.active[k] == x;
            assert(playing.active[k] < keys.len());
        }
    }
    assert forall|i: usize| i < keys.len() implies (#[trigger] next.active.contains(i)
        <==> next.voices[i as int].state != KeyState::Stopped) by {
        assert(playing.active.contains(i) <==> playing.voices[i as int].state
            != KeyState::Stopped);
    }
}

/// The mixer invariant holds after any number of samples.
pub proof fn lemma_after_keeps_wf<T: Copy>(keys: Seq<Key<T>>, playing: Playing, t: nat)
    requires
        playing.wf(keys),
    ensures
        playing.after(keys, t).wf(keys),
    decreases t,
{
    if t > 0 {
        lemma_after_keeps_wf(keys, playing, (t - 1) as nat);
        lemma_ticked_keeps_wf(keys, playing.after(keys, (t - 1) as nat));
    }
}

/// In the mix every voice moves as it would alone: after `t` samples voice
/// `i` stands where `t` samples take it by itself.
pub proof fn lemma_voices_run_alone<T: Copy>(keys: Seq<Key<T>>, playing: Playing, t: nat, i: int)
    requires
        0 <= i < playing.voices.len(),
    ensures
        playing.after(keys, t).voices.len() == playing.voices.len(),
        playing.after(keys, t).voices[i] == playing.voices[i].run(keys[i], t),
    decreases t,
{
    if t > 0 {
        lemma_voices_run_alone(keys, playing, (t - 1) as nat, i);
    }
}

/// Two voices with the same envelope that stand at the same position read the
/// same sample now and after any number of samples.
pub proof fn lemma_twin_voices_read_alike<T: Copy>(
    keys: Seq<Key<T>>,
    playing: Playing,
    t: nat,
    a: int,
    b: int,
)
    requires
        0 <= a < playing.voices.len(),
        0 <= b < playing.voices.len(),
        keys[a] == keys[b],
        playing.voices[a] == playing.voices[b],
    ensures
        playing.after(keys, t).voices[a] == playing.after(keys, t).voices[b],
        playing.after(keys, t).voices[a].sample(keys[a]) == playing.after(keys, t).voices[b].sample(
            keys[b],
        ),
{
    lemma_voices_run_alone(keys, playing, t, a);
    lemma_voices_run_alone(keys, playing, t, b);
}

/// The sum and the division are exact where two equal voices need them to be:
/// silence plus a value is that value, a value over 1 is that value, and the
/// sum of a value with itself over 2 is that value.
pub open spec fn exact_mean<T, F: Fn(T, T) -> T, G: Fn(T, usize) -> T>(
    plus: F,
    over: G,
    silence: T,
) -> bool {
    &&& forall|x: T, s: T| #[trigger] plus.ensures((silence, x), s) ==> s == x
    &&& forall|x: T, r: T| #[trigger] over.ensures((x, 1usize), r) ==> r == x
    &&& forall|x: T, s: T, r: T|
        #[trigger] plus.ensures((x, x), s) && #[trigger] over.ensures((s, 2usize), r) ==> r == x
}

/// The active indices `active` all belong to voices that move alike, so after
/// one sample they are all still active or none is.
proof fn lemma_alike_survive_together(
    active: Seq<usize>,
    sounding: spec_fn(usize) -> bool,
    stays: bool,
)
    requires
        forall|j: int| 0 <= j < active.len() ==> sounding(#[trigger] active[j]) == stays,
    ensures
        active.filter(sounding) == (if stays {
            active
        } else {
            Seq::<usize>::empty()
        }),
    decreases active.len(),
{
    if active.len() == 0 {
        active.lemma_filter_len(sounding);
        assert(active.filter(sounding) =~= Seq::<usize>::empty());
        assert(active =~= Seq::<usize>::empty());
    } else {
        let front = active.drop_last();
        let last = active.last();
        assert forall|j: int| 0 <= j < front.len() implies sounding(#[trigger] front[j])
            == stays by {
            assert(front[j] == active[j]);
        }
        lemma_alike_survive_together(front, sounding, stays);
        assert(active =~= front.push(last));
        front.lemma_filter_push(last, sounding);
        assert(sounding(active[active.len() - 1]) == stays);
    }
}

/// Voices that are all active, have one envelope and stand at one position
/// stay together: after `t` samples each stands where `t` samples take one of
/// them alone, and the active indices are the same as at first while that
/// voice sounds, and none once it has stopped.
pub proof fn lemma_alike_voices_stay_together<T: Copy>(
    keys: Seq<Key<T>>,
    playing: Playing,
    key: Key<T>,
    voice: Voice,
    t: nat,
)
    requires
        playing.wf(keys),
        forall|j: int|
            0 <= j < playing.active.len() ==> keys[(#[trigger] playing.active[j]) as int] == key
                && playing.voices[playing.active[j] as int] == voice,
    ensures
        playing.after(keys, t).voices.len() == playing.voices.len(),
        forall|j: int|
            0 <= j < playing.active.len() ==> playing.after(keys, t).voices[(
            #[trigger] playing.active[j]) as int] == voice.run(key, t),
        playing.after(keys, t).active == (if voice.run(key, t).state != KeyState::Stopped
            || playing.active.len() == 0 {
            playing.active
        } else {
            Seq::<usize>::empty()
        }),
    decreases t,
{
    assert forall|j: int| 0 <= j < playing.active.len() implies playing.after(keys, t).voices[(
    #[trigger] playing.active[j]) as int] == voice.run(key, t) by {
        lemma_voices_run_alone(keys, playing, t, playing.active[j] as int);
    }
    if playing.voices.len() > 0 {
        lemma_voices_run_alone(keys, playing, t, 0);
    } else {
        lemma_no_voices(keys, playing, t);
    }
    if t > 0 {
        let earlier = playing.after(keys, (t - 1) as nat);
        let stood = voice.run(key, (t - 1) as nat);
        lemma_alike_voices_stay_together(keys, playing, key, voice, (t - 1) as nat);
        let sounding = survives(keys, earlier.voices);
        let stays = voice.run(key, t).state != KeyState::Stopped;
        if playing.active.len() > 0 {
            assert(playing.voices[playing.active[0] as int] == voice);
            assert(playing.active.contains(playing.active[0]));
            assert(voice.state != KeyState::Stopped);
        }
        if earlier.active.len() > 0 {
            assert forall|j: int| 0 <= j < earlier.active.len() implies sounding(
                #[trigger] earlier.active[j],
            ) == stays by {
                assert(earlier.active[j] == playing.active[j]);
                assert(earlier.voices[playing.active[j] as int] == stood);
            }
            lemma_alike_survive_together(earlier.active, sounding, stays);
        } else {
            earlier.active.lemma_filter_len(sounding);
            assert(earlier.active.filter(sounding) =~= Seq::<usize>::empty());
            assert(stood.state == KeyState::Stopped || playing.active.len() == 0);
        }
    }
}

/// A mixer without voices stays without voices.
proof fn lemma_no_voices<T: Copy>(keys: Seq<Key<T>>, playing: Playing, t: nat)
    requires
        playing.voices.len() == 0,
    ensures
        playing.after(keys, t).voices.len() == 0,
    decreases t,
{
    if t > 0 {
        lemma_no_voices(keys, playing, (t - 1) as nat);
    }
}

/// Two equal voices mix to what one of them mixes to alone, at every sample,
/// where the sum and the division are exact: a mixer whose only active voices
/// are two voices with one envelope at one position, and a mixer whose only
/// active voice is a third such voice, give the same sample after any number
/// of samples.
pub proof fn lemma_twin_voices_mix_like_one<T: Copy, F: Fn(T, T) -> T, G: Fn(T, usize) -> T>(
    plus: F,
    over: G,
    silence: T,
    keys2: Seq<Key<T>>,
    two: Playing,
    keys1: Seq<Key<T>>,
    one: Playing,
    t: nat,
    mixed2: T,
    mixed1: T,
)
    requires
        two.wf(keys2),
        one.wf(keys1),
        two.active.len() == 2,
        one.active.len() == 1,
        keys2[two.active[0] as int] == keys1[one.active[0] as int],
        keys2[two.active[1] as int] == keys1[one.active[0] as int],
        two.voices[two.active[0] as int] == one.voices[one.active[0] as int],
        two.voices[two.active[1] as int] == one.voices[one.active[0] as int],
        exact_mean(plus, over, silence),
        mixes_to(plus, over, silence, two.after(keys2, t).reads(keys2), mixed2),
        mixes_to(plus, over, silence, one.after(keys1, t).reads(keys1), mixed1),
    ensures
        mixed2 == mixed1,
{
    let key = keys1[one.active[0] as int];
    let voice = one.voices[one.active[0] as int];
    lemma_alike_voices_stay_together(keys2, two, key, voice, t);
    lemma_alike_voices_stay_together(keys1, one, key, voice, t);
    let reads2 = two.after(keys2, t).reads(keys2);
    let reads1 = one.after(keys1, t).reads(keys1);
    if voice.run(key, t).state != KeyState::Stopped {
        let x = voice.run(key, t).sample(key);
        assert(two.after(keys2, t).voices[two.active[0] as int] == voice.run(key, t));
        assert(two.after(keys2, t).voices[two.active[1] as int] == voice.run(key, t));
        assert(one.after(keys1, t).voices[one.active[0] as int] == voice.run(key, t));
        assert(reads2.len() == 2 && reads2[0] == x && reads2[1] == x);
        assert(reads1.len() == 1 && reads1[0] == x);
        let total2 = choose|total: T| #[trigger]
            sums_to(plus, silence, reads2, total) && over.ensures((total, 2usize), mixed2);
        let partials2 = choose|partials: Seq<T>| #[trigger]
            running_sum(plus, silence, reads2, partials) && partials.last() == total2;
        assert(plus.ensures((partials2[0], reads2[0]), partials2[1]));
        assert(plus.ensures((partials2[1], reads2[1]), partials2[2]));
        assert(partials2[1] == x);
        assert(mixed2 == x);
        let total1 = choose|total: T| #[trigger]
            sums_to(plus, silence, reads1, total) && over.ensures((total, 1usize), mixed1);
        let partials1 = choose|partials: Seq<T>| #[trigger]
            running_sum(plus, silence, reads1, partials) && partials.last() == total1;
        assert(plus.ensures((partials1[0], reads1[0]), partials1[1]));
        assert(mixed1 == x);
    } else {
        assert(reads2.len() == 0);
        assert(reads1.len() == 0);
    }
}

} // verus!
