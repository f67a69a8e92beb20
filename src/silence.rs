//! Silence as whole MP3 frames of a fixed silent pattern.

use vstd::prelude::*;

verus! {

/// Nominal playing time of one frame, in milliseconds.
pub const FRAME_MILLIS: u64 = 26;

/// One silent MPEG-1 layer III frame header and body (44.1 kHz, 128 kbit/s, mono).
pub open spec fn silent_frame() -> Seq<u8> {
    seq![
        0xFFu8, 0xFBu8, 0x10u8, 0x00u8, 0x00u8, 0x00u8, 0x00u8, 0x00u8,
        0x00u8, 0x00u8, 0x00u8, 0x00u8, 0x00u8, 0x00u8, 0x00u8, 0x00u8,
    ]
}

/// The number of frames that silence of `millis` takes: the duration divided
/// by the frame duration, rounded up.
pub open spec fn frames_for(millis: nat) -> nat {
    ((millis + FRAME_MILLIS - 1) / (FRAME_MILLIS as int)) as nat
}

/// `n` silent frames, one after another.
pub open spec fn silence_bytes(n: nat) -> Seq<u8>
    decreases n,
{
    if n == 0 {
        Seq::empty()
    } else {
        silence_bytes((n - 1) as nat) + silent_frame()
    }
}

/// Silence never plays shorter than asked, and is less than one frame longer:
/// `frames_for(d)` is the ceiling of `d / FRAME_MILLIS`.
pub proof fn lemma_silence_covers(millis: nat)
    ensures
        frames_for(millis) * FRAME_MILLIS >= millis,
        frames_for(millis) * FRAME_MILLIS < millis + FRAME_MILLIS,
        millis == 0 <==> frames_for(millis) == 0,
{
    let f = frames_for(millis);
    assert((millis + 25) == f * 26 + (millis + 25) % 26) by (nonlinear_arith)
        requires
            f == (millis + 25) / 26,
    ;
}

/// Each silent frame takes the same number of bytes.
pub proof fn lemma_silence_len(n: nat)
    ensures
        silence_bytes(n).len() == 16 * n,
    decreases n,
{
    if n > 0 {
        lemma_silence_len((n - 1) as nat);
    }
}

/// Silence that plays for at least `millis`: `frames_for(millis)` silent frames.
pub fn silence(millis: u64) -> (r: Vec<u8>)
    ensures
        r@ == silence_bytes(frames_for(millis as nat)),
{
    let frame: Vec<u8> = vec![
        0xFF, 0xFB, 0x10, 0x00, 0x00, 0x00, 0x00, 0x00,
        0x00, 0x00, 0x00, 0x00, 0x00, 0x00, 0x00, 0x00,
    ];
    assert(frame@ =~= silent_frame());
    let n: u64 = millis / FRAME_MILLIS + if millis % FRAME_MILLIS == 0 { 0 } else { 1 };
    assert(n == frames_for(millis as nat));
    let mut r: Vec<u8> = Vec::new();
    let mut i: u64 = 0;
    while i < n
        invariant
            i <= n,
            frame@ == silent_frame(),
            r@ == silence_bytes(i as nat),
        decreases n - i,
    {
        append_bytes(&mut r, &frame);
        i = i + 1;
    }
    r
}

/// Appends `src` to `dst`.
pub fn append_bytes(dst: &mut Vec<u8>, src: &Vec<u8>)
    ensures
        final(dst)@ == old(dst)@ + src@,
{
    let mut k: usize = 0;
    while k < src.len()
        invariant
            k <= src@.len(),
            dst@ == old(dst)@ + src@.subrange(0, k as int),
        decreases src@.len() - k,
    {
        dst.push(src[k]);
        k = k + 1;
        assert(dst@ =~= old(dst)@ + src@.subrange(0, k as int));
    }
    assert(src@.subrange(0, k as int) =~= src@);
}

} // verus!
