//! Pattern search over character sequences, in the way `str::split` walks a
//! string: each search starts where the previous match ended.

use vstd::prelude::*;
use vstd::string::*;

verus! {

/// `pat` occurs in `s` starting at index `i`.
pub open spec fn occurs_at(s: Seq<char>, pat: Seq<char>, i: int) -> bool {
    0 <= i && i + pat.len() <= s.len() && s.subrange(i, i + pat.len()) == pat
}

/// The first index at or after `from` where `pat` occurs in `s`.
pub open spec fn find_from(s: Seq<char>, pat: Seq<char>, from: int) -> Option<int>
    decreases s.len() + 1 - from,
{
    if from < 0 || from + pat.len() > s.len() {
        None
    } else if occurs_at(s, pat, from) {
        Some(from)
    } else {
        find_from(s, pat, from + 1)
    }
}

/// Splitting `s` on `pat` gives exactly two parts: the text around the only
/// match that a left-to-right split finds.
pub open spec fn split_two(s: Seq<char>, pat: Seq<char>) -> Option<(Seq<char>, Seq<char>)> {
    match find_from(s, pat, 0) {
        None => None,
        Some(i) => match find_from(s, pat, i + pat.len()) {
            Some(_) => None,
            None => Some((s.subrange(0, i), s.subrange(i + pat.len(), s.len() as int))),
        },
    }
}

/// Splitting `s` on `pat` gives exactly three parts.
pub open spec fn split_three(s: Seq<char>, pat: Seq<char>) -> Option<
    (Seq<char>, Seq<char>, Seq<char>),
> {
    match find_from(s, pat, 0) {
        None => None,
        Some(i) => match split_two(s.subrange(i + pat.len(), s.len() as int), pat) {
            None => None,
            Some((b, c)) => Some((s.subrange(0, i), b, c)),
        },
    }
}

pub proof fn lemma_find_from_bounds(s: Seq<char>, pat: Seq<char>, from: int)
    ensures
        match find_from(s, pat, from) {
            Some(i) => from <= i && occurs_at(s, pat, i),
            None => true,
        },
    decreases s.len() + 1 - from,
{
    if from < 0 || from + pat.len() > s.len() {
    } else if occurs_at(s, pat, from) {
    } else {
        lemma_find_from_bounds(s, pat, from + 1);
    }
}

/// Skipping indices where `pat` does not occur leaves the search's result.
pub proof fn lemma_find_skips(s: Seq<char>, pat: Seq<char>, from: int, to: int)
    requires
        0 <= from <= to,
        forall|j: int| from <= j < to ==> !occurs_at(s, pat, j),
    ensures
        find_from(s, pat, from) == find_from(s, pat, to),
    decreases to - from,
{
    if from < to {
        lemma_find_skips(s, pat, from + 1, to);
    }
}

/// Where `pat` occurs nowhere at or after `from`, the search finds nothing.
pub proof fn lemma_find_none(s: Seq<char>, pat: Seq<char>, from: int)
    requires
        0 <= from,
        forall|j: int| from <= j ==> !occurs_at(s, pat, j),
    ensures
        find_from(s, pat, from) is None,
    decreases s.len() + 1 - from,
{
    if from + pat.len() <= s.len() {
        lemma_find_none(s, pat, from + 1);
    }
}

/// A split into two parts puts back together as the original.
pub proof fn lemma_split_two_parts(s: Seq<char>, pat: Seq<char>)
    ensures
        match split_two(s, pat) {
            Some((a, b)) => s == a + pat + b,
            None => true,
        },
{
    lemma_find_from_bounds(s, pat, 0);
    if let Some((a, b)) = split_two(s, pat) {
        let i = find_from(s, pat, 0)->Some_0;
        assert(s =~= a + pat + b);
    }
}

/// A split into three parts puts back together as the original.
pub proof fn lemma_split_three_parts(s: Seq<char>, pat: Seq<char>)
    ensures
        match split_three(s, pat) {
            Some((a, b, c)) => s == a + pat + (b + pat + c),
            None => true,
        },
{
    lemma_find_from_bounds(s, pat, 0);
    if let Some((a, b, c)) = split_three(s, pat) {
        let i = find_from(s, pat, 0)->Some_0;
        let rest = s.subrange(i + pat.len(), s.len() as int);
        lemma_split_two_parts(rest, pat);
        assert(s =~= a + pat + rest);
    }
}

/// Where neither side holds the pattern's first character, joining them
/// around the pattern splits back into the two sides.
pub proof fn lemma_split_two_join(a: Seq<char>, pat: Seq<char>, b: Seq<char>)
    requires
        pat.len() > 0,
        forall|i: int| 0 <= i < a.len() ==> a[i] != pat[0],
        forall|i: int| 0 <= i < b.len() ==> b[i] != pat[0],
    ensures
        split_two(a + pat + b, pat) == Some((a, b)),
{
    let s = a + pat + b;
    let n = a.len() as int;
    assert forall|j: int| 0 <= j < n implies !occurs_at(s, pat, j) by {
        if occurs_at(s, pat, j) {
            assert(s.subrange(j, j + pat.len())[0] == s[j]);
        }
    }
    lemma_find_skips(s, pat, 0, n);
    assert(s.subrange(n, n + pat.len()) =~= pat);
    assert forall|j: int| n + pat.len() <= j implies !occurs_at(s, pat, j) by {
        if occurs_at(s, pat, j) {
            assert(s.subrange(j, j + pat.len())[0] == s[j]);
            assert(s[j] == b[j - n - pat.len()]);
        }
    }
    lemma_find_none(s, pat, n + pat.len());
    assert(s.subrange(0, n) =~= a);
    assert(s.subrange(n + pat.len(), s.len() as int) =~= b);
}

/// Where no part holds the pattern's first character, joining three parts
/// around the pattern splits back into them.
pub proof fn lemma_split_three_join(a: Seq<char>, pat: Seq<char>, b: Seq<char>, c: Seq<char>)
    requires
        pat.len() > 0,
        forall|i: int| 0 <= i < a.len() ==> a[i] != pat[0],
        forall|i: int| 0 <= i < b.len() ==> b[i] != pat[0],
        forall|i: int| 0 <= i < c.len() ==> c[i] != pat[0],
    ensures
        split_three(a + pat + b + pat + c, pat) == Some((a, b, c)),
{
    let s = a + pat + b + pat + c;
    let n = a.len() as int;
    assert forall|j: int| 0 <= j < n implies !occurs_at(s, pat, j) by {
        if occurs_at(s, pat, j) {
            assert(s.subrange(j, j + pat.len())[0] == s[j]);
        }
    }
    lemma_find_skips(s, pat, 0, n);
    assert(s.subrange(n, n + pat.len()) =~= pat);
    assert(s.subrange(n + pat.len(), s.len() as int) =~= b + pat + c);
    lemma_split_two_join(b, pat, c);
    assert(s.subrange(0, n) =~= a);
}

/// How many parts splitting `s` on `pat` gives, counting from index `from`.
pub open spec fn parts_from(s: Seq<char>, pat: Seq<char>, from: int) -> nat
    decreases s.len() + 1 - from,
{
    match find_from(s, pat, from) {
        Some(i) => if from <= i && pat.len() > 0 && i + pat.len() <= s.len() {
            1 + parts_from(s, pat, i + pat.len())
        } else {
            1
        },
        None => 1,
    }
}

/// How many parts splitting `s` on a nonempty `pat` gives.
pub open spec fn part_count(s: Seq<char>, pat: Seq<char>) -> nat {
    parts_from(s, pat, 0)
}

/// A split gives exactly two parts just when the part count is two, and
/// exactly three just when it is three.
pub proof fn lemma_part_count(s: Seq<char>, pat: Seq<char>)
    requires
        pat.len() > 0,
    ensures
        split_two(s, pat) is Some <==> part_count(s, pat) == 2,
        split_three(s, pat) is Some <==> part_count(s, pat) == 3,
    decreases s.len(),
{
    lemma_find_from_bounds(s, pat, 0);
    if let Some(i) = find_from(s, pat, 0) {
        let j = i + pat.len();
        lemma_find_from_bounds(s, pat, j);
        lemma_parts_positive(s, pat, j);
        let rest = s.subrange(j, s.len() as int);
        lemma_parts_suffix(s, pat, j, 0);
        lemma_find_from_bounds(rest, pat, 0);
        if let Some(k) = find_from(rest, pat, 0) {
            lemma_parts_positive(rest, pat, k + pat.len());
        }
        lemma_part_count(rest, pat);
    }
}

proof fn lemma_parts_positive(s: Seq<char>, pat: Seq<char>, from: int)
    ensures
        parts_from(s, pat, from) >= 1,
        parts_from(s, pat, from) == 1 <==> !(find_from(s, pat, from) is Some && from <= find_from(
            s,
            pat,
            from,
        )->Some_0 && pat.len() > 0 && find_from(s, pat, from)->Some_0 + pat.len() <= s.len()),
    decreases s.len() + 1 - from,
{
    if let Some(i) = find_from(s, pat, from) {
        if from <= i && pat.len() > 0 && i + pat.len() <= s.len() {
            lemma_parts_positive(s, pat, i + pat.len());
        }
    }
}

proof fn lemma_find_from_suffix(s: Seq<char>, pat: Seq<char>, k: int, from: int)
    requires
        0 <= k <= s.len(),
        0 <= from,
    ensures
        find_from(s.subrange(k, s.len() as int), pat, from) == match find_from(s, pat, from + k) {
            Some(i) => Some(i - k),
            None => None::<int>,
        },
    decreases s.len() + 1 - from,
{
    let t = s.subrange(k, s.len() as int);
    if from + pat.len() <= t.len() {
        assert(t.subrange(from, from + pat.len()) =~= s.subrange(from + k, from + k + pat.len()));
        if !occurs_at(s, pat, from + k) {
            lemma_find_from_suffix(s, pat, k, from + 1);
        }
    }
}

proof fn lemma_parts_suffix(s: Seq<char>, pat: Seq<char>, k: int, from: int)
    requires
        0 <= k <= s.len(),
        0 <= from,
    ensures
        parts_from(s.subrange(k, s.len() as int), pat, from) == parts_from(s, pat, from + k),
    decreases s.len() + 1 - from,
{
    lemma_find_from_suffix(s, pat, k, from);
    if let Some(i) = find_from(s, pat, from + k) {
        if from + k <= i && pat.len() > 0 && i + pat.len() <= s.len() {
            lemma_parts_suffix(s, pat, k, i - k + pat.len());
        }
    }
}

/// The characters of `s`, one per element.
pub fn chars_of(s: &str) -> (r: Vec<char>)
    ensures
        r@ == s@,
{
    let n = s.unicode_len();
    let mut r: Vec<char> = Vec::new();
    let mut i: usize = 0;
    while i < n
        invariant
            n == s@.len(),
            i <= n,
            r@ == s@.subrange(0, i as int),
        decreases n - i,
    {
        r.push(s.get_char(i));
        i = i + 1;
        assert(r@ =~= s@.subrange(0, i as int));
    }
    assert(r@ =~= s@);
    r
}

/// Whether `pat` occurs in `s` at index `i`.
fn matches_at(s: &Vec<char>, pat: &Vec<char>, i: usize) -> (r: bool)
    requires
        i + pat@.len() <= s@.len(),
    ensures
        r == occurs_at(s@, pat@, i as int),
{
    let n = s.len();
    let mut k: usize = 0;
    while k < pat.len()
        invariant
            n == s@.len(),
            i + pat@.len() <= s@.len(),
            k <= pat@.len(),
            forall|j: int| 0 <= j < k ==> s@[i + j] == pat@[j],
        decreases pat@.len() - k,
    {
        if s[i + k] != pat[k] {
            assert(s@.subrange(i as int, i + pat@.len())[k as int] != pat@[k as int]);
            return false;
        }
        k = k + 1;
    }
    assert(s@.subrange(i as int, i + pat@.len()) =~= pat@);
    true
}

/// The first index at or after `from` where `pat` occurs in `s`.
pub fn find(s: &Vec<char>, pat: &Vec<char>, from: usize) -> (r: Option<usize>)
    requires
        pat@.len() > 0,
    ensures
        match r {
            Some(i) => find_from(s@, pat@, from as int) == Some(i as int),
            None => find_from(s@, pat@, from as int) is None,
        },
{
    let mut j: usize = from;
    while j < s.len() && pat.len() <= s.len() - j
        invariant
            from <= j,
            find_from(s@, pat@, from as int) == find_from(s@, pat@, j as int),
        decreases s@.len() - j,
    {
        if matches_at(s, pat, j) {
            return Some(j);
        }
        j = j + 1;
    }
    None
}

/// Splits `s` on `pat` where that gives exactly two parts.
pub fn split_in_two(s: &Vec<char>, pat: &Vec<char>) -> (r: Option<(Vec<char>, Vec<char>)>)
    requires
        pat@.len() > 0,
    ensures
        match r {
            Some((a, b)) => split_two(s@, pat@) == Some((a@, b@)),
            None => split_two(s@, pat@) is None,
        },
{
    let n = s.len();
    match find(s, pat, 0) {
        None => None,
        Some(i) => {
            proof {
                lemma_find_from_bounds(s@, pat@, 0);
            }
            match find(s, pat, i + pat.len()) {
                Some(_) => None,
                None => Some((slice_of(s, 0, i), slice_of(s, i + pat.len(), s.len()))),
            }
        },
    }
}

/// Splits `s` on `pat` where that gives exactly three parts.
pub fn split_in_three(s: &Vec<char>, pat: &Vec<char>) -> (r: Option<
    (Vec<char>, Vec<char>, Vec<char>),
>)
    requires
        pat@.len() > 0,
    ensures
        match r {
            Some((a, b, c)) => split_three(s@, pat@) == Some((a@, b@, c@)),
            None => split_three(s@, pat@) is None,
        },
{
    let n = s.len();
    match find(s, pat, 0) {
        None => None,
        Some(i) => {
            proof {
                lemma_find_from_bounds(s@, pat@, 0);
            }
            let rest = slice_of(s, i + pat.len(), s.len());
            match split_in_two(&rest, pat) {
                None => None,
                Some((b, c)) => Some((slice_of(s, 0, i), b, c)),
            }
        },
    }
}

/// The elements of `s` from `lo` up to `hi`.
pub fn slice_of(s: &Vec<char>, lo: usize, hi: usize) -> (r: Vec<char>)
    requires
        lo <= hi <= s@.len(),
    ensures
        r@ == s@.subrange(lo as int, hi as int),
{
    let mut r: Vec<char> = Vec::new();
    let mut i: usize = lo;
    while i < hi
        invariant
            lo <= i <= hi <= s@.len(),
            r@ == s@.subrange(lo as int, i as int),
        decreases hi - i,
    {
        r.push(s[i]);
        i = i + 1;
        assert(r@ =~= s@.subrange(lo as int, i as int));
    }
    r
}

} // verus!
