//! Subtitle timecodes of the shape `HH:MM:SS,mmm`, read as milliseconds.

use vstd::prelude::*;
use crate::text::{
    chars_of, lemma_split_three_join, lemma_split_three_parts, lemma_split_two_join,
    lemma_part_count, lemma_split_two_parts, part_count, split_in_three, split_in_two,
    split_three, split_two,
};

verus! {

/// A timecode that does not have the shape `HH:MM:SS,mmm`.
#[derive(Debug, Clone, Copy, PartialEq, Eq, Structural)]
pub struct FormatError;

pub open spec fn is_digit(c: char) -> bool {
    '0' <= c && c <= '9'
}

pub open spec fn digit_value(c: char) -> nat {
    (c as u32 - '0' as u32) as nat
}

/// The number that a string of decimal digits writes.
pub open spec fn decimal_value(s: Seq<char>) -> nat
    decreases s.len(),
{
    if s.len() == 0 {
        0
    } else {
        decimal_value(s.drop_last()) * 10 + digit_value(s.last())
    }
}

/// A numeric field: one or more decimal digits whose value fits in 32 bits.
pub open spec fn field_value(s: Seq<char>) -> Option<nat> {
    if s.len() > 0 && (forall|i: int| 0 <= i < s.len() ==> is_digit(#[trigger] s[i]))
        && decimal_value(s) <= u32::MAX {
        Some(decimal_value(s))
    } else {
        None
    }
}

pub open spec fn colon() -> Seq<char> {
    seq![':']
}

pub open spec fn comma() -> Seq<char> {
    seq![',']
}

pub open spec fn millis_of(h: nat, m: nat, s: nat, ms: nat) -> nat {
    h * 3_600_000 + m * 60_000 + s * 1000 + ms
}

/// The time, in milliseconds, that a timecode stands for: the string splits
/// on `:` into exactly three parts, the last of them splits on `,` into
/// exactly two, and each of the four fields is a number.
pub open spec fn timestamp_millis(s: Seq<char>) -> Option<nat> {
    match split_three(s, colon()) {
        None => None,
        Some((h, m, rest)) => match split_two(rest, comma()) {
            None => None,
            Some((sec, ms)) => match (field_value(h), field_value(m), field_value(sec), field_value(ms)) {
                (Some(hv), Some(mv), Some(sv), Some(msv)) => Some(millis_of(hv, mv, sv, msv)),
                _ => None,
            },
        },
    }
}

pub open spec fn has_no_space(s: Seq<char>) -> bool {
    forall|i: int| 0 <= i < s.len() ==> #[trigger] s[i] != ' '
}

proof fn lemma_concat_no_space(a: Seq<char>, b: Seq<char>)
    requires
        has_no_space(a),
        has_no_space(b),
    ensures
        has_no_space(a + b),
{
    assert forall|i: int| 0 <= i < (a + b).len() implies #[trigger] (a + b)[i] != ' ' by {
        if i < a.len() {
            assert((a + b)[i] == a[i]);
        } else {
            assert((a + b)[i] == b[i - a.len()]);
        }
    }
}

/// A well-formed timecode holds only digits, colons and a comma, so no space.
pub proof fn lemma_timestamp_has_no_space(s: Seq<char>)
    requires
        timestamp_millis(s) is Some,
    ensures
        has_no_space(s),
{
    lemma_split_three_parts(s, colon());
    let (h, m, rest) = split_three(s, colon())->Some_0;
    lemma_split_two_parts(rest, comma());
    let (sec, ms) = split_two(rest, comma())->Some_0;
    assert(has_no_space(h));
    assert(has_no_space(m));
    assert(has_no_space(sec));
    assert(has_no_space(ms));
    assert(has_no_space(colon()));
    assert(has_no_space(comma()));
    lemma_concat_no_space(sec, comma());
    lemma_concat_no_space(sec + comma(), ms);
    lemma_concat_no_space(m, colon());
    lemma_concat_no_space(m + colon(), rest);
    lemma_concat_no_space(h, colon());
    lemma_concat_no_space(h + colon(), m + colon() + rest);
    assert(m + colon() + rest == m + colon() + (sec + comma() + ms));
}

/// A field of decimal digits whose value fits in 32 bits.
pub open spec fn is_field(s: Seq<char>) -> bool {
    s.len() > 0 && (forall|i: int| 0 <= i < s.len() ==> is_digit(#[trigger] s[i]))
        && decimal_value(s) <= u32::MAX
}

/// Any four digit fields joined as `H:M:S,ms` read as `H` hours, `M`
/// minutes, `S` seconds and `ms` milliseconds, to the millisecond.
pub proof fn lemma_fields_read_exactly(h: Seq<char>, m: Seq<char>, s: Seq<char>, ms: Seq<char>)
    requires
        is_field(h),
        is_field(m),
        is_field(s),
        is_field(ms),
    ensures
        timestamp_millis(h + colon() + m + colon() + (s + comma() + ms)) == Some(
            millis_of(decimal_value(h), decimal_value(m), decimal_value(s), decimal_value(ms)),
        ),
{
    let rest = s + comma() + ms;
    assert forall|i: int| 0 <= i < rest.len() implies rest[i] != colon()[0] by {
        if i < s.len() {
            assert(rest[i] == s[i]);
        } else if i > s.len() {
            assert(rest[i] == ms[i - s.len() - 1]);
        }
    }
    assert(forall|i: int| 0 <= i < h.len() ==> h[i] != colon()[0] && is_digit(h[i]));
    assert(forall|i: int| 0 <= i < m.len() ==> m[i] != colon()[0] && is_digit(m[i]));
    assert(forall|i: int| 0 <= i < s.len() ==> s[i] != comma()[0] && is_digit(s[i]));
    assert(forall|i: int| 0 <= i < ms.len() ==> ms[i] != comma()[0] && is_digit(ms[i]));
    lemma_split_three_join(h, colon(), m, rest);
    lemma_split_two_join(s, comma(), ms);
}

/// A timecode whose split on `:` does not give exactly three parts is
/// rejected, and so is one whose third part does not split on `,` into
/// exactly two.
pub proof fn lemma_wrong_part_counts_rejected(s: Seq<char>)
    ensures
        part_count(s, colon()) != 3 ==> timestamp_millis(s) is None,
        match split_three(s, colon()) {
            Some((_, _, rest)) => part_count(rest, comma()) != 2 ==> timestamp_millis(s) is None,
            None => true,
        },
{
    lemma_part_count(s, colon());
    if let Some((_, _, rest)) = split_three(s, colon()) {
        lemma_part_count(rest, comma());
    }
}

/// Reads a numeric field.
fn parse_field(s: &Vec<char>) -> (r: Option<u64>)
    ensures
        match r {
            Some(v) => field_value(s@) == Some(v as nat),
            None => field_value(s@) is None,
        },
{
    if s.len() == 0 {
        return None;
    }
    let mut acc: u64 = 0;
    let mut i: usize = 0;
    while i < s.len()
        invariant
            i <= s@.len(),
            acc as nat == decimal_value(s@.subrange(0, i as int)),
            acc <= u32::MAX,
            forall|j: int| 0 <= j < i ==> is_digit(#[trigger] s@[j]),
        decreases s@.len() - i,
    {
        let c = s[i];
        proof {
            assert(s@.subrange(0, i + 1).drop_last() =~= s@.subrange(0, i as int));
        }
        if !('0' <= c && c <= '9') {
            return None;
        }
        acc = acc * 10 + (c as u32 - '0' as u32) as u64;
        i = i + 1;
        if acc > 0xffff_ffff {
            proof {
                lemma_decimal_prefix_bound(s@, i as int);
            }
            return None;
        }
    }
    assert(s@.subrange(0, i as int) =~= s@);
    Some(acc)
}

/// The value of a digit string is at least the value of each of its prefixes.
proof fn lemma_decimal_prefix_bound(s: Seq<char>, k: int)
    requires
        0 <= k <= s.len(),
    ensures
        decimal_value(s.subrange(0, k)) <= decimal_value(s),
    decreases s.len() - k,
{
    if k < s.len() {
        lemma_decimal_prefix_bound(s, k + 1);
        assert(s.subrange(0, k + 1).drop_last() =~= s.subrange(0, k));
    } else {
        assert(s.subrange(0, k) =~= s);
    }
}

/// Reads a timecode given as characters.
pub fn parse_timestamp_chars(s: &Vec<char>) -> (r: Result<u64, FormatError>)
    ensures
        match r {
            Ok(v) => timestamp_millis(s@) == Some(v as nat),
            Err(_) => timestamp_millis(s@) is None,
        },
{
    let colon_pat = vec![':'];
    let comma_pat = vec![','];
    assert(colon_pat@ =~= colon());
    assert(comma_pat@ =~= comma());
    let (h, m, rest) = match split_in_three(s, &colon_pat) {
        Some(parts) => parts,
        None => return Err(FormatError),
    };
    let (sec, ms) = match split_in_two(&rest, &comma_pat) {
        Some(parts) => parts,
        None => return Err(FormatError),
    };
    let hv = match parse_field(&h) {
        Some(v) => v,
        None => return Err(FormatError),
    };
    let mv = match parse_field(&m) {
        Some(v) => v,
        None => return Err(FormatError),
    };
    let sv = match parse_field(&sec) {
        Some(v) => v,
        None => return Err(FormatError),
    };
    let msv = match parse_field(&ms) {
        Some(v) => v,
        None => return Err(FormatError),
    };
    Ok(hv * 3_600_000 + mv * 60_000 + sv * 1000 + msv)
}

/// Reads a timecode `HH:MM:SS,mmm` as milliseconds: hours, minutes and
/// seconds scaled to milliseconds, plus the millisecond field.
pub fn parse_timestamp(s: &str) -> (r: Result<u64, FormatError>)
    ensures
        match r {
            Ok(v) => timestamp_millis(s@) == Some(v as nat),
            Err(_) => timestamp_millis(s@) is None,
        },
{
    let cs = chars_of(s);
    parse_timestamp_chars(&cs)
}

} // verus!
