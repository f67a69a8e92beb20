//! Playing time of encoded MP3 audio.

use vstd::prelude::*;

verus! {

#[verifier::external_type_specification]
#[verifier::external_body]
pub struct ExMP3DurationError(mp3_duration::MP3DurationError);

/// What `mp3_duration::from_read` reports for these bytes, in whole
/// milliseconds: `None` where it fails on them.
pub uninterp spec fn mp3_duration_millis(data: Seq<u8>) -> Option<u64>;

/// The largest number of samples that a Xing or Info header may announce so
/// that the count times one billion still fits in a `u64`.
pub const XING_SAMPLE_LIMIT: u64 = 18_446_744_073;

/// The four bytes at `i` read `Xing` or `Info`.
pub open spec fn xing_tag_at(d: Seq<u8>, i: int) -> bool {
    (d[i] == 0x58 && d[i + 1] == 0x69 && d[i + 2] == 0x6e && d[i + 3] == 0x67) || (d[i] == 0x49
        && d[i + 1] == 0x6e && d[i + 2] == 0x66 && d[i + 3] == 0x6f)
}

/// The big-endian 32-bit number at `i`.
pub open spec fn be32_at(d: Seq<u8>, i: int) -> nat {
    d[i] as nat * 16_777_216 + d[i + 1] as nat * 65_536 + d[i + 2] as nat * 256 + d[i + 3] as nat
}

/// Every twelve-byte window that reads as a Xing or Info header with its
/// frame-count flag set announces at most `XING_SAMPLE_LIMIT` samples, at
/// the largest frame size of 1152 samples.
pub open spec fn frame_counts_measurable(d: Seq<u8>) -> bool {
    forall|i: int|
        0 <= i && i + 12 <= d.len() && #[trigger] xing_tag_at(d, i) && d[i + 7] % 2 == 1
            ==> be32_at(d, i + 8) * 1152 <= XING_SAMPLE_LIMIT
}

/// Whether the bytes hold no Xing or Info header whose frame count is too
/// large to be measured.
pub fn frame_counts_in_range(d: &Vec<u8>) -> (r: bool)
    ensures
        r == frame_counts_measurable(d@),
{
    let n = d.len();
    if n < 12 {
        return true;
    }
    let mut i: usize = 0;
    while i <= n - 12
        invariant
            n == d@.len(),
            n >= 12,
            forall|j: int|
                0 <= j < i && #[trigger] xing_tag_at(d@, j) && d@[j + 7] % 2 == 1 ==> be32_at(
                    d@,
                    j + 8,
                ) * 1152 <= XING_SAMPLE_LIMIT,
        decreases n - i,
    {
        let tagged = (d[i] == 0x58 && d[i + 1] == 0x69 && d[i + 2] == 0x6e && d[i + 3] == 0x67)
            || (d[i] == 0x49 && d[i + 1] == 0x6e && d[i + 2] == 0x66 && d[i + 3] == 0x6f);
        if tagged && d[i + 7] % 2 == 1 {
            let count: u64 = d[i + 8] as u64 * 16_777_216 + d[i + 9] as u64 * 65_536 + d[i + 10] as u64
                * 256 + d[i + 11] as u64;
            if count * 1152 > XING_SAMPLE_LIMIT {
                assert(xing_tag_at(d@, i as int) && be32_at(d@, i + 8) == count);
                return false;
            }
        }
        i = i + 1;
    }
    true
}

/// Relies on `mp3_duration::from_read`: it reads the frame headers of the
/// bytes and sums the frames' playing times, or fails on a malformed stream;
/// its result depends on the bytes alone. The duration is truncated to whole
/// milliseconds. Where a Xing or Info header sets its frame-count flag,
/// `from_read` multiplies one billion by the frame count times the samples per
/// frame (at most 1152) without a check, which panics on overflow: the
/// precondition leaves such counts out.
#[verifier::external_body]
pub(crate) fn probe_mp3_millis(data: &Vec<u8>) -> (r: Result<u64, mp3_duration::MP3DurationError>)
    requires
        frame_counts_measurable(data@),
    ensures
        match r {
            Ok(d) => mp3_duration_millis(data@) == Some(d),
            Err(_) => mp3_duration_millis(data@) is None,
        },
{
    let mut cursor = std::io::Cursor::new(data.as_slice());
    mp3_duration::from_read(&mut cursor).map(|d| d.as_millis() as u64)
}

} // verus!
