//! Frames: batches of samples, built without any arithmetic on the samples.

use vstd::prelude::*;

verus! {

/// A frame of `len` samples, each of them `value`.
pub fn filled<T: Copy>(value: T, len: usize) -> (frame: Vec<T>)
    ensures
        frame@ == Seq::new(len as nat, |i: int| value),
{
    let mut frame: Vec<T> = Vec::new();
    let mut i: usize = 0;
    while i < len
        invariant
            i <= len,
            frame@ == Seq::new(i as nat, |k: int| value),
        decreases len - i,
    {
        frame.push(value);
        i += 1;
    }
    frame
}

/// A fresh frame holding the samples of `src`.
pub fn copy_of<T: Copy>(src: &[T]) -> (out: Vec<T>)
    ensures
        out@ == src@,
{
    let mut out: Vec<T> = Vec::new();
    append(&mut out, src);
    out
}

/// Pushes the samples of `src` onto the end of `dst`.
pub fn append<T: Copy>(dst: &mut Vec<T>, src: &[T])
    ensures
        final(dst)@ == old(dst)@ + src@,
{
    let mut i: usize = 0;
    while i < src.len()
        invariant
            i <= src@.len(),
            dst@ == old(dst)@ + src@.take(i as int),
        decreases src@.len() - i,
    {
        dst.push(src[i]);
        i += 1;
    }
    assert(src@.take(i as int) == src@);
}

} // verus!
