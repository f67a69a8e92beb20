use tts_rust::silence::{silence, FRAME_MILLIS};
use tts_rust::subtitle::Cue;
use tts_rust::sync::{DecodeError, Synchronizer};

const FRAME: [u8; 16] = [
    0xFF, 0xFB, 0x10, 0x00, 0x00, 0x00, 0x00, 0x00, 0x00, 0x00, 0x00, 0x00, 0x00, 0x00, 0x00, 0x00,
];

fn cue(start: u64, end: u64, text: &str) -> Cue {
    Cue {
        start_millis: start,
        end_millis: end,
        text: text.to_string(),
    }
}

fn frames(n: usize) -> Vec<u8> {
    let mut v = Vec::new();
    for _ in 0..n {
        v.extend_from_slice(&FRAME);
    }
    v
}

/// Ten MPEG-1 layer III frames, 128 kbit/s at 44.1 kHz: 417 bytes and
/// 1152 samples each, so about 261 ms in all.
fn ten_mp3_frames() -> Vec<u8> {
    let mut v = Vec::new();
    for _ in 0..10 {
        let mut frame = vec![0u8; 417];
        frame[0] = 0xFF;
        frame[1] = 0xFB;
        frame[2] = 0x90;
        frame[3] = 0x64;
        v.extend_from_slice(&frame);
    }
    v
}

#[test]
fn silence_rounds_up_to_whole_frames() {
    assert_eq!(FRAME_MILLIS, 26);
    assert_eq!(silence(0), Vec::<u8>::new());
    assert_eq!(silence(1), frames(1));
    assert_eq!(silence(26), frames(1));
    assert_eq!(silence(27), frames(2));
    assert_eq!(silence(1000), frames(39));
    assert_eq!(silence(800), frames(31));
}

#[test]
fn short_speech_is_padded_to_cue_end() {
    let mut s = Synchronizer::new();
    let c = cue(1000, 3000, "Hi");
    let speech = vec![1u8, 2, 3];
    s.lead_in(&c);
    s.place_speech(&c, &speech, 1200);
    assert_eq!(s.playhead(), 3000);
    let mut expected = frames(39);
    expected.extend_from_slice(&speech);
    expected.extend_from_slice(&frames(31));
    assert_eq!(s.output(), &expected);
}

#[test]
fn overrun_shortens_next_lead_in() {
    let mut s = Synchronizer::new();
    let first = cue(1000, 3000, "One");
    let second = cue(4000, 5000, "Two");
    let speech = vec![7u8; 5];
    s.lead_in(&first);
    s.place_speech(&first, &speech, 2500);
    assert_eq!(s.playhead(), 3500);
    let after_first = s.output().len();
    assert_eq!(after_first, 39 * 16 + 5);
    s.lead_in(&second);
    assert_eq!(s.output().len() - after_first, 20 * 16);
    assert_eq!(&s.output()[after_first..], &frames(20)[..]);
    assert_eq!(s.playhead(), 3500);
}

#[test]
fn overrun_past_next_start_gives_no_lead_in() {
    let mut s = Synchronizer::new();
    let first = cue(0, 1000, "One");
    let second = cue(1500, 2000, "Two");
    s.lead_in(&first);
    s.place_speech(&first, &vec![9u8], 2000);
    let len = s.output().len();
    assert_eq!(len, 1);
    s.lead_in(&second);
    assert_eq!(s.output().len(), len);
}

#[test]
fn fresh_run_is_empty() {
    let s = Synchronizer::new();
    assert_eq!(s.playhead(), 0);
    assert_eq!(s.into_output(), Vec::<u8>::new());
}

#[test]
fn speech_that_exactly_fills_cue_gets_no_trailing_silence() {
    let mut s = Synchronizer::new();
    let c = cue(0, 1000, "Full");
    s.place_speech(&c, &vec![5u8, 6], 1000);
    assert_eq!(s.playhead(), 1000);
    assert_eq!(s.output(), &vec![5u8, 6]);
}

#[test]
fn empty_speech_is_a_decode_error() {
    let mut s = Synchronizer::new();
    let c = cue(0, 1000, "Nothing");
    assert_eq!(s.take_speech(&c, &Vec::new()), Err(DecodeError));
    assert_eq!(s.playhead(), 0);
    assert_eq!(s.output().len(), 0);
}

#[test]
fn unreadable_speech_is_a_decode_error() {
    let mut s = Synchronizer::new();
    let c = cue(0, 1000, "Noise");
    assert_eq!(s.take_speech(&c, &vec![1u8, 2, 3, 4, 5, 6, 7, 8]), Err(DecodeError));
    assert_eq!(s.output().len(), 0);
}

#[test]
fn measured_speech_is_placed() {
    let mut s = Synchronizer::new();
    let c = cue(0, 1000, "Measured");
    let speech = ten_mp3_frames();
    assert_eq!(s.take_speech(&c, &speech), Ok(()));
    assert_eq!(s.playhead(), 1000);
    // 261 ms of speech leaves 739 ms, which takes 29 frames.
    let mut expected = speech.clone();
    expected.extend_from_slice(&frames(29));
    assert_eq!(s.output(), &expected);
}

#[test]
fn measured_overrun_moves_playhead() {
    let mut s = Synchronizer::new();
    let c = cue(100, 200, "Long");
    let speech = ten_mp3_frames();
    assert_eq!(s.take_speech(&c, &speech), Ok(()));
    assert_eq!(s.playhead(), 361);
    assert_eq!(s.output(), &speech);
}

fn xing_frame(count: [u8; 4]) -> Vec<u8> {
    let mut v = vec![0xFFu8, 0xFB, 0x90, 0x64];
    v.extend_from_slice(&[0u8; 32]);
    v.extend_from_slice(b"Xing");
    v.extend_from_slice(&[0u8, 0, 0, 1]);
    v.extend_from_slice(&count);
    v
}

#[test]
fn oversized_xing_frame_count_is_a_decode_error() {
    let mut s = Synchronizer::new();
    let c = cue(0, 1000, "Huge");
    let speech = xing_frame([0xFF, 0xFF, 0xFF, 0xFF]);
    assert_eq!(speech.len(), 48);
    assert_eq!(s.take_speech(&c, &speech), Err(DecodeError));
    assert_eq!(s.playhead(), 0);
    assert_eq!(s.output().len(), 0);
}

#[test]
fn xing_frame_count_gives_duration() {
    let mut s = Synchronizer::new();
    let c = cue(1000, 1100, "Tagged");
    // Ten frames of 1152 samples at 44.1 kHz: 261 ms.
    let speech = xing_frame([0, 0, 0, 10]);
    assert_eq!(s.take_speech(&c, &speech), Ok(()));
    assert_eq!(s.playhead(), 1261);
    assert_eq!(s.output(), &speech);
}

#[test]
fn audio_without_frames_is_a_decode_error() {
    let mut s = Synchronizer::new();
    let c = cue(0, 1000, "Padding");
    assert_eq!(s.take_speech(&c, &vec![0u8; 64]), Err(DecodeError));
    assert_eq!(s.playhead(), 0);
    assert_eq!(s.output().len(), 0);
}
