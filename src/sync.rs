//! The synchronization driver: places each cue's speech on the output timeline
//! behind a playhead, with silence before and after it.

use vstd::prelude::*;
use crate::probe::{
    frame_counts_in_range, frame_counts_measurable, mp3_duration_millis, probe_mp3_millis,
};
use crate::silence::{
    append_bytes, frames_for, lemma_silence_covers, lemma_silence_len, silence, silence_bytes,
    FRAME_MILLIS,
};
use crate::subtitle::Cue;

verus! {

/// Speech that could not be measured: the bytes are empty, announce a frame
/// count too large to measure, are not a readable MP3 stream, measure as no
/// time, or their length does not fit on the timeline.
#[derive(Debug, Clone, Copy, PartialEq, Eq, Structural)]
pub struct DecodeError;

/// The state of a run: the playhead, the first millisecond of the timeline
/// not yet covered, and the bytes written so far.
pub struct Timeline {
    pub playhead: nat,
    pub output: Seq<u8>,
}

/// Silence that brings a playhead at `playhead` up to a cue starting at `start`.
pub open spec fn lead_in_bytes(playhead: nat, start: nat) -> Seq<u8> {
    if playhead < start {
        silence_bytes(frames_for((start - playhead) as nat))
    } else {
        Seq::empty()
    }
}

/// Where the playhead stands after speech of `speech_millis` placed at `start`
/// in a cue that ends at `end`: at the cue's end if the speech fell short of
/// it, else where the speech ended.
pub open spec fn playhead_after(start: nat, end: nat, speech_millis: nat) -> nat {
    if start + speech_millis < end {
        end
    } else {
        start + speech_millis
    }
}

/// Silence that fills a cue from the end of its speech to the cue's end;
/// nothing where the speech overran.
pub open spec fn trailing_bytes(start: nat, end: nat, speech_millis: nat) -> Seq<u8> {
    if start + speech_millis < end {
        silence_bytes(frames_for((end - (start + speech_millis)) as nat))
    } else {
        Seq::empty()
    }
}

/// The timeline after a cue's speech is placed: the speech bytes, then the
/// trailing silence, with the playhead moved on.
pub open spec fn placed(t: Timeline, cue: Cue, speech: Seq<u8>, speech_millis: nat) -> Timeline {
    Timeline {
        playhead: playhead_after(cue.start_millis as nat, cue.end_millis as nat, speech_millis),
        output: t.output + speech + trailing_bytes(
            cue.start_millis as nat,
            cue.end_millis as nat,
            speech_millis,
        ),
    }
}

/// Speech that ends before its cue does is followed by the gap to the cue's
/// end divided by the frame duration, rounded up, in silent frames; that
/// silence plays at least as long as the gap, and the playhead lands on the
/// cue's end.
pub proof fn lemma_short_speech_is_padded(start: nat, end: nat, speech_millis: nat)
    requires
        start + speech_millis < end,
    ensures
        ({
            let gap = (end - (start + speech_millis)) as nat;
            &&& trailing_bytes(start, end, speech_millis) == silence_bytes(frames_for(gap))
            &&& trailing_bytes(start, end, speech_millis).len() == 16 * frames_for(gap)
            &&& frames_for(gap) * FRAME_MILLIS >= gap
            &&& frames_for(gap) * FRAME_MILLIS < gap + FRAME_MILLIS
        }),
        playhead_after(start, end, speech_millis) == end,
{
    let gap = (end - (start + speech_millis)) as nat;
    lemma_silence_covers(gap);
    lemma_silence_len(frames_for(gap));
}

/// Speech that runs past its cue's end gets no trailing silence and leaves the
/// playhead where the speech ended; the next cue's leading silence is measured
/// from there, not from the first cue's end.
pub proof fn lemma_overrun_carries(
    t: Timeline,
    cue: Cue,
    speech: Seq<u8>,
    speech_millis: nat,
    next_start: nat,
)
    requires
        cue.start_millis + speech_millis >= cue.end_millis,
    ensures
        ({
            let after = placed(t, cue, speech, speech_millis);
            let spoken_until = cue.start_millis + speech_millis;
            &&& after.output == t.output + speech
            &&& after.playhead == spoken_until
            &&& lead_in_bytes(after.playhead, next_start) == if spoken_until < next_start {
                silence_bytes(frames_for((next_start - spoken_until) as nat))
            } else {
                Seq::empty()
            }
        }),
{
    assert(t.output + speech + Seq::<u8>::empty() =~= t.output + speech);
}

/// Owns the playhead and the staged output of one run.
pub struct Synchronizer {
    playhead: u64,
    output: Vec<u8>,
}

impl View for Synchronizer {
    type V = Timeline;

    closed spec fn view(&self) -> Timeline {
        Timeline { playhead: self.playhead as nat, output: self.output@ }
    }
}

impl Synchronizer {
    /// A run that has written nothing, with the playhead at zero.
    pub fn new() -> (r: Synchronizer)
        ensures
            r@.playhead == 0,
            r@.output == Seq::<u8>::empty(),
    {
        Synchronizer { playhead: 0, output: Vec::new() }
    }

    /// The current playhead, in milliseconds.
    pub fn playhead(&self) -> (r: u64)
        ensures
            r as nat == self@.playhead,
    {
        self.playhead
    }

    /// The bytes written so far.
    pub fn output(&self) -> (r: &Vec<u8>)
        ensures
            r@ == self@.output,
    {
        &self.output
    }

    /// Ends the run and hands over its bytes.
    pub fn into_output(self) -> (r: Vec<u8>)
        ensures
            r@ == self@.output,
    {
        self.output
    }

    /// Writes the silence that comes before a cue: where the playhead is
    /// behind the cue's start, silence for the difference. The playhead stays.
    pub fn lead_in(&mut self, cue: &Cue)
        ensures
            final(self)@.playhead == old(self)@.playhead,
            final(self)@.output == old(self)@.output + lead_in_bytes(
                old(self)@.playhead,
                cue.start_millis as nat,
            ),
    {
        if self.playhead < cue.start_millis {
            let gap = silence(cue.start_millis - self.playhead);
            append_bytes(&mut self.output, &gap);
        } else {
            assert(self.output@ =~= self.output@ + Seq::<u8>::empty());
        }
    }

    /// Writes a cue's speech, measured at `speech_millis`, then silence up to
    /// the cue's end where the speech fell short of it. The playhead moves to
    /// the speech's end, or to the cue's end where silence filled the rest.
    pub fn place_speech(&mut self, cue: &Cue, speech: &Vec<u8>, speech_millis: u64)
        requires
            cue.start_millis + speech_millis <= u64::MAX,
        ensures
            final(self)@ == placed(old(self)@, *cue, speech@, speech_millis as nat),
    {
        append_bytes(&mut self.output, speech);
        let spoken_until = cue.start_millis + speech_millis;
        self.playhead = spoken_until;
        if spoken_until < cue.end_millis {
            let tail = silence(cue.end_millis - spoken_until);
            append_bytes(&mut self.output, &tail);
            self.playhead = cue.end_millis;
        } else {
            assert(self.output@ =~= self.output@ + Seq::<u8>::empty());
        }
    }

    /// Measures a cue's synthesized speech and places it as `place_speech`
    /// does. Fails, writing nothing, where the bytes are empty, announce a
    /// frame count too large to measure, cannot be read as MP3, measure as no
    /// time at all, or run past the end of the timeline.
    pub fn take_speech(&mut self, cue: &Cue, speech: &Vec<u8>) -> (r: Result<(), DecodeError>)
        ensures
            if speech@.len() > 0 && frame_counts_measurable(speech@) {
                match mp3_duration_millis(speech@) {
                    Some(d) => if d > 0 && cue.start_millis + d <= u64::MAX {
                        r is Ok && final(self)@ == placed(old(self)@, *cue, speech@, d as nat)
                    } else {
                        r is Err && final(self)@ == old(self)@
                    },
                    None => r is Err && final(self)@ == old(self)@,
                }
            } else {
                r is Err && final(self)@ == old(self)@
            },
    {
        if speech.len() == 0 {
            return Err(DecodeError);
        }
        if !frame_counts_in_range(speech) {
            return Err(DecodeError);
        }
        match probe_mp3_millis(speech) {
            Err(_) => Err(DecodeError),
            Ok(d) => {
                if d == 0 || d > u64::MAX - cue.start_millis {
                    Err(DecodeError)
                } else {
                    self.place_speech(cue, speech, d);
                    Ok(())
                }
            },
        }
    }
}

} // verus!
