use tts_rust::subtitle::{parse_cues, Cue};
use tts_rust::timestamp::FormatError;

fn lines(text: &[&str]) -> Vec<String> {
    text.iter().map(|s| s.to_string()).collect()
}

fn times(cues: &[Cue]) -> Vec<(u64, u64, String)> {
    cues.iter()
        .map(|c| (c.start_millis, c.end_millis, c.text.clone()))
        .collect()
}

#[test]
fn blocks_give_one_cue_each_in_order() {
    let input = lines(&[
        "1",
        "00:00:01,000 --> 00:00:03,000",
        "Hi",
        "",
        "2",
        "00:00:04,000 --> 00:00:05,500",
        "There",
        "",
    ]);
    let cues = parse_cues(&input).unwrap();
    assert_eq!(
        times(&cues),
        vec![
            (1000, 3000, "Hi".to_string()),
            (4000, 5500, "There".to_string()),
        ]
    );
}

#[test]
fn last_block_needs_no_separator() {
    let input = lines(&["1", "00:00:01,000 --> 00:00:02,000", "Bye"]);
    let cues = parse_cues(&input).unwrap();
    assert_eq!(times(&cues), vec![(1000, 2000, "Bye".to_string())]);
}

#[test]
fn empty_input_has_no_cues() {
    assert_eq!(parse_cues(&Vec::new()).unwrap().len(), 0);
}

#[test]
fn blank_lines_only_have_no_cues() {
    let input = lines(&["", "", "", "", "", ""]);
    assert_eq!(parse_cues(&input).unwrap().len(), 0);
}

#[test]
fn cue_with_empty_text_is_skipped() {
    let input = lines(&[
        "1",
        "00:00:01,000 --> 00:00:02,000",
        "",
        "",
        "2",
        "00:00:03,000 --> 00:00:04,000",
        "Said",
        "",
    ]);
    let cues = parse_cues(&input).unwrap();
    assert_eq!(times(&cues), vec![(3000, 4000, "Said".to_string())]);
}

#[test]
fn unsplittable_timing_keeps_earlier_times() {
    let input = lines(&[
        "1",
        "00:00:01,000 --> 00:00:02,000",
        "One",
        "",
        "2",
        "00:00:03,000 -> 00:00:04,000",
        "Two",
        "",
    ]);
    let cues = parse_cues(&input).unwrap();
    assert_eq!(
        times(&cues),
        vec![
            (1000, 2000, "One".to_string()),
            (1000, 2000, "Two".to_string()),
        ]
    );
}

#[test]
fn malformed_timecode_is_an_error() {
    let input = lines(&["1", "00:00:01 --> 00:00:02,000", "One", ""]);
    assert_eq!(parse_cues(&input).unwrap_err(), FormatError);
}

#[test]
fn first_cue_without_timing_is_an_error() {
    let input = lines(&["1", "no timing here", "One", ""]);
    assert_eq!(parse_cues(&input).unwrap_err(), FormatError);
}

#[test]
fn malformed_timecode_of_skipped_cue_is_ignored() {
    let input = lines(&[
        "1",
        "bad --> worse",
        "",
        "",
        "2",
        "00:00:03,000 --> 00:00:04,000",
        "Fine",
        "",
    ]);
    let cues = parse_cues(&input).unwrap();
    assert_eq!(times(&cues), vec![(3000, 4000, "Fine".to_string())]);
}

#[test]
fn only_one_text_line_is_read() {
    let input = lines(&[
        "1",
        "00:00:01,000 --> 00:00:02,000",
        "First line",
        "Second line",
    ]);
    let cues = parse_cues(&input).unwrap();
    assert_eq!(times(&cues), vec![(1000, 2000, "First line".to_string())]);
}
