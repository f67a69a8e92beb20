//! Subtitle cues and the parser that reads them from lines of text.
//!
//! The input repeats blocks of four lines: an index (ignored), a timing line
//! `<start> --> <end>`, one line of text, and a separator. The separator line
//! ends the block and emits its cue where the text is not empty. A timing line
//! that does not split into exactly two parts on ` --> ` leaves the times of
//! the block before in place. Only a single line of text per cue is read.

use vstd::prelude::*;
use crate::text::{chars_of, lemma_split_two_join, split_in_two, split_two};
use crate::timestamp::{
    lemma_timestamp_has_no_space, parse_timestamp_chars, timestamp_millis, FormatError,
};

verus! {

/// One subtitle entry: when it starts and ends, in milliseconds, and the text
/// to speak.
#[derive(Debug, Clone)]
pub struct Cue {
    pub start_millis: u64,
    pub end_millis: u64,
    pub text: String,
}

/// What a cue means: its times and its text.
pub struct CueModel {
    pub start: nat,
    pub end: nat,
    pub text: Seq<char>,
}

pub open spec fn model_of(c: Cue) -> CueModel {
    CueModel { start: c.start_millis as nat, end: c.end_millis as nat, text: c.text@ }
}

/// What the parser holds between lines: the two timecodes last read, still
/// as text, and the text of the cue being read.
pub struct ParserState {
    pub start: Seq<char>,
    pub end: Seq<char>,
    pub text: Seq<char>,
}

pub open spec fn arrow() -> Seq<char> {
    seq![' ', '-', '-', '>', ' ']
}

pub open spec fn initial_state() -> ParserState {
    ParserState { start: Seq::empty(), end: Seq::empty(), text: Seq::empty() }
}

/// The state after reading `line` as the `n`-th line of the input (counting
/// from one).
pub open spec fn step(st: ParserState, n: nat, line: Seq<char>) -> ParserState {
    if n % 4 == 0 {
        ParserState { text: Seq::empty(), ..st }
    } else if n % 4 == 2 {
        match split_two(line, arrow()) {
            Some((a, b)) => ParserState { start: a, end: b, ..st },
            None => st,
        }
    } else if n % 4 == 3 {
        ParserState { text: line, ..st }
    } else {
        st
    }
}

/// The state after reading all of `lines`.
pub open spec fn state_after(lines: Seq<Seq<char>>) -> ParserState
    decreases lines.len(),
{
    if lines.len() == 0 {
        initial_state()
    } else {
        step(state_after(lines.drop_last()), lines.len(), lines.last())
    }
}

/// The cues that separator lines emit while reading `lines`, still unparsed.
pub open spec fn emitted(lines: Seq<Seq<char>>) -> Seq<ParserState>
    decreases lines.len(),
{
    if lines.len() == 0 {
        Seq::empty()
    } else {
        let prev = emitted(lines.drop_last());
        let st = state_after(lines.drop_last());
        if lines.len() % 4 == 0 && st.text.len() > 0 {
            prev.push(st)
        } else {
            prev
        }
    }
}

/// All cues that `lines` hold, still unparsed: those that separators emitted,
/// then a last one whose text the input ended on.
pub open spec fn raw_cues(lines: Seq<Seq<char>>) -> Seq<ParserState> {
    if state_after(lines).text.len() > 0 {
        emitted(lines).push(state_after(lines))
    } else {
        emitted(lines)
    }
}

/// A cue with its timecodes read.
pub open spec fn cue_of(raw: ParserState) -> Option<CueModel> {
    match (timestamp_millis(raw.start), timestamp_millis(raw.end)) {
        (Some(s), Some(e)) => Some(CueModel { start: s, end: e, text: raw.text }),
        _ => None,
    }
}

/// The cues that `lines` hold, or `None` where a cue's timecode is malformed.
pub open spec fn parsed_cues(lines: Seq<Seq<char>>) -> Option<Seq<CueModel>> {
    let raws = raw_cues(lines);
    if forall|i: int| 0 <= i < raws.len() ==> (#[trigger] cue_of(raws[i])) is Some {
        Some(raws.map_values(|r: ParserState| cue_of(r)->Some_0))
    } else {
        None
    }
}

pub open spec fn line_views(lines: Seq<String>) -> Seq<Seq<char>> {
    lines.map_values(|s: String| s@)
}

/// One subtitle block as written: index line, two timecodes, text line.
pub struct Block {
    pub index: Seq<char>,
    pub start: Seq<char>,
    pub end: Seq<char>,
    pub text: Seq<char>,
}

/// A block with two well-formed timecodes and a text to speak.
pub open spec fn well_formed(b: Block) -> bool {
    timestamp_millis(b.start) is Some && timestamp_millis(b.end) is Some && b.text.len() > 0
}

/// The four lines of a block: index, timing line, text, blank separator.
pub open spec fn block_lines(b: Block) -> Seq<Seq<char>> {
    seq![b.index, b.start + arrow() + b.end, b.text, Seq::<char>::empty()]
}

/// The lines of a file made of `blocks`, in order.
pub open spec fn lines_of(blocks: Seq<Block>) -> Seq<Seq<char>>
    decreases blocks.len(),
{
    if blocks.len() == 0 {
        Seq::empty()
    } else {
        lines_of(blocks.drop_last()) + block_lines(blocks.last())
    }
}

/// The cue that a well-formed block stands for.
pub open spec fn block_cue(b: Block) -> CueModel {
    CueModel {
        start: timestamp_millis(b.start)->Some_0,
        end: timestamp_millis(b.end)->Some_0,
        text: b.text,
    }
}

pub open spec fn block_state(b: Block) -> ParserState {
    ParserState { start: b.start, end: b.end, text: b.text }
}

proof fn lemma_blocks_emit(blocks: Seq<Block>)
    requires
        forall|i: int| 0 <= i < blocks.len() ==> well_formed(#[trigger] blocks[i]),
    ensures
        lines_of(blocks).len() == 4 * blocks.len(),
        state_after(lines_of(blocks)).text.len() == 0,
        emitted(lines_of(blocks)) == blocks.map_values(|b: Block| block_state(b)),
    decreases blocks.len(),
{
    if blocks.len() == 0 {
        assert(blocks.map_values(|b: Block| block_state(b)) =~= Seq::<ParserState>::empty());
    } else {
        let prev = blocks.drop_last();
        let b = blocks.last();
        assert forall|i: int| 0 <= i < prev.len() implies well_formed(#[trigger] prev[i]) by {
            assert(prev[i] == blocks[i]);
        }
        lemma_blocks_emit(prev);
        let l0 = lines_of(prev);
        let k = prev.len();
        let timing = b.start + arrow() + b.end;
        lemma_timestamp_has_no_space(b.start);
        lemma_timestamp_has_no_space(b.end);
        lemma_split_two_join(b.start, arrow(), b.end);
        let l1 = l0.push(b.index);
        let l2 = l1.push(timing);
        let l3 = l2.push(b.text);
        let l4 = l3.push(Seq::<char>::empty());
        assert(l1.drop_last() =~= l0);
        assert(l2.drop_last() =~= l1);
        assert(l3.drop_last() =~= l2);
        assert(l4.drop_last() =~= l3);
        assert(l4 =~= lines_of(blocks));
        assert(l1.len() == 4 * k + 1);
        assert((4 * k + 1) % 4 == 1) by (nonlinear_arith);
        assert((4 * k + 2) % 4 == 2) by (nonlinear_arith);
        assert((4 * k + 3) % 4 == 3) by (nonlinear_arith);
        assert((4 * k + 4) % 4 == 0) by (nonlinear_arith);
        assert(state_after(l1) == state_after(l0));
        assert(emitted(l1) == emitted(l0));
        assert(state_after(l2) == (ParserState { start: b.start, end: b.end, text: Seq::empty() }));
        assert(emitted(l2) == emitted(l0));
        assert(state_after(l3) == block_state(b));
        assert(emitted(l3) == emitted(l0));
        assert(emitted(l4) == emitted(l0).push(block_state(b)));
        assert(blocks.map_values(|b: Block| block_state(b)) =~= prev.map_values(
            |b: Block| block_state(b),
        ).push(block_state(b)));
    }
}

/// A file of well-formed four-line blocks yields exactly one cue per block, in
/// file order, each with its block's times and single line of text.
pub proof fn lemma_blocks_parse(blocks: Seq<Block>)
    requires
        forall|i: int| 0 <= i < blocks.len() ==> well_formed(#[trigger] blocks[i]),
    ensures
        parsed_cues(lines_of(blocks)) == Some(blocks.map_values(|b: Block| block_cue(b))),
{
    lemma_blocks_emit(blocks);
    let raws = raw_cues(lines_of(blocks));
    assert(raws == blocks.map_values(|b: Block| block_state(b)));
    assert forall|i: int| 0 <= i < raws.len() implies (#[trigger] cue_of(raws[i])) is Some by {
        assert(raws[i] == block_state(blocks[i]));
        assert(well_formed(blocks[i]));
    }
    assert(raws.map_values(|r: ParserState| cue_of(r)->Some_0) =~= blocks.map_values(
        |b: Block| block_cue(b),
    ));
}

/// Input of empty lines only holds no cue.
pub proof fn lemma_blank_input_has_no_cues(lines: Seq<Seq<char>>)
    requires
        forall|i: int| 0 <= i < lines.len() ==> (#[trigger] lines[i]).len() == 0,
    ensures
        parsed_cues(lines) == Some(Seq::<CueModel>::empty()),
    decreases lines.len(),
{
    lemma_blank_lines_state(lines);
    assert(raw_cues(lines).map_values(|r: ParserState| cue_of(r)->Some_0) =~= Seq::<
        CueModel,
    >::empty());
}

proof fn lemma_blank_lines_state(lines: Seq<Seq<char>>)
    requires
        forall|i: int| 0 <= i < lines.len() ==> (#[trigger] lines[i]).len() == 0,
    ensures
        state_after(lines).text.len() == 0,
        emitted(lines).len() == 0,
    decreases lines.len(),
{
    if lines.len() > 0 {
        let p = lines.drop_last();
        assert forall|i: int| 0 <= i < p.len() implies (#[trigger] p[i]).len() == 0 by {
            assert(p[i] == lines[i]);
        }
        lemma_blank_lines_state(p);
        assert(lines.last().len() == 0);
    }
}

/// Cues emitted from a prefix of the input stay, in place, among those
/// emitted from the whole.
proof fn lemma_emitted_prefix(lines: Seq<Seq<char>>, k: int)
    requires
        0 <= k <= lines.len(),
    ensures
        emitted(lines.subrange(0, k)).len() <= emitted(lines).len(),
        emitted(lines.subrange(0, k)) == emitted(lines).subrange(
            0,
            emitted(lines.subrange(0, k)).len() as int,
        ),
    decreases lines.len(),
{
    if k == lines.len() {
        assert(lines.subrange(0, k) =~= lines);
        assert(emitted(lines) =~= emitted(lines).subrange(0, emitted(lines).len() as int));
    } else {
        let p = lines.drop_last();
        assert(p.subrange(0, k) =~= lines.subrange(0, k));
        lemma_emitted_prefix(p, k);
        let e = emitted(lines.subrange(0, k));
        assert(emitted(lines).subrange(0, e.len() as int) =~= emitted(p).subrange(
            0,
            e.len() as int,
        ));
    }
}

/// Reads a cue whose block is complete.
fn make_cue(start: &Vec<char>, end: &Vec<char>, text: &String) -> (r: Result<Cue, FormatError>)
    ensures
        match r {
            Ok(c) => cue_of(ParserState { start: start@, end: end@, text: text@ }) == Some(
                model_of(c),
            ),
            Err(_) => cue_of(ParserState { start: start@, end: end@, text: text@ }) is None,
        },
{
    let s = match parse_timestamp_chars(start) {
        Ok(v) => v,
        Err(e) => return Err(e),
    };
    let e = match parse_timestamp_chars(end) {
        Ok(v) => v,
        Err(e) => return Err(e),
    };
    Ok(Cue { start_millis: s, end_millis: e, text: text.clone() })
}

/// Reads the cues of a subtitle file given as its lines, in file order.
/// Fails where a cue that the blocks emit has a malformed timecode.
pub fn parse_cues(lines: &Vec<String>) -> (r: Result<Vec<Cue>, FormatError>)
    ensures
        match r {
            Ok(v) => parsed_cues(line_views(lines@)) == Some(
                v@.map_values(|c: Cue| model_of(c)),
            ),
            Err(_) => parsed_cues(line_views(lines@)) is None,
        },
{
    let ghost lv = line_views(lines@);
    let arrow_pat: Vec<char> = vec![' ', '-', '-', '>', ' '];
    assert(arrow_pat@ =~= arrow());
    let mut start: Vec<char> = Vec::new();
    let mut end: Vec<char> = Vec::new();
    let mut text: String = String::new();
    let mut out: Vec<Cue> = Vec::new();
    let mut i: usize = 0;
    while i < lines.len()
        invariant
            lv == line_views(lines@),
            lv.len() == lines@.len(),
            arrow_pat@ == arrow(),
            i <= lines@.len(),
            state_after(lv.subrange(0, i as int)) == (ParserState {
                start: start@,
                end: end@,
                text: text@,
            }),
            out@.len() == emitted(lv.subrange(0, i as int)).len(),
            forall|k: int|
                0 <= k < out@.len() ==> cue_of(#[trigger] emitted(lv.subrange(0, i as int))[k])
                    == Some(model_of(out@[k])),
        decreases lines@.len() - i,
    {
        let ghost before = lv.subrange(0, i as int);
        let ghost emitted_before = emitted(before);
        proof {
            assert(lv.subrange(0, i + 1).drop_last() =~= before);
            assert(lv[i as int] == lines@[i as int]@);
        }
        let n = i + 1;
        let line = &lines[i];
        if n % 4 == 0 {
            if !text.as_str().is_empty() {
                match make_cue(&start, &end, &text) {
                    Ok(c) => {
                        out.push(c);
                    },
                    Err(e) => {
                        proof {
                            lemma_emitted_prefix(lv, i + 1);
                            let last = emitted(lv.subrange(0, i + 1)).len() - 1;
                            assert(raw_cues(lv)[last] == emitted(lv.subrange(0, i + 1))[last]);
                            assert(cue_of(raw_cues(lv)[last]) is None);
                        }
                        return Err(e);
                    },
                }
            }
            text = String::new();
        } else if n % 4 == 2 {
            let cs = chars_of(line.as_str());
            match split_in_two(&cs, &arrow_pat) {
                Some((a, b)) => {
                    start = a;
                    end = b;
                },
                None => {},
            }
        } else if n % 4 == 3 {
            text = line.clone();
        }
        i = i + 1;
        proof {
            let after = lv.subrange(0, i as int);
            assert(emitted(after).len() == out@.len());
            assert forall|k: int| 0 <= k < out@.len() implies cue_of(
                #[trigger] emitted(after)[k],
            ) == Some(model_of(out@[k])) by {
                if k < emitted_before.len() {
                    assert(emitted(after)[k] == emitted_before[k]);
                }
            }
        }
    }
    proof {
        assert(lv.subrange(0, i as int) =~= lv);
    }
    if !text.as_str().is_empty() {
        match make_cue(&start, &end, &text) {
            Ok(c) => {
                out.push(c);
            },
            Err(e) => {
                proof {
                    let raws = raw_cues(lv);
                    assert(cue_of(raws[raws.len() - 1]) is None);
                }
                return Err(e);
            },
        }
    }
    proof {
        let raws = raw_cues(lv);
        assert(raws.len() == out@.len());
        assert forall|k: int| 0 <= k < raws.len() implies (#[trigger] cue_of(raws[k])) is Some
            && cue_of(raws[k])->Some_0 == model_of(out@[k]) by {
            if k < emitted(lv).len() {
                assert(raws[k] == emitted(lv)[k]);
            }
        }
        assert(raws.map_values(|r: ParserState| cue_of(r)->Some_0) =~= out@.map_values(
            |c: Cue| model_of(c),
        ));
    }
    Ok(out)
}

} // verus!
