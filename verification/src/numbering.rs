use vstd::prelude::*;

use crate::layout::spaces;
use crate::text::{
    chars_of, copy_range, decimal, digit_char, push_char, string_from_chars, trim, trim_chars, trim_end,
    trim_end_chars, trim_start, trim_start_chars, u32_decimal,
};

verus! {

broadcast use vstd::string::group_string_axioms;

// ---------------------------------------------------------------------------
// Word spacing
// ---------------------------------------------------------------------------

/// ASCII letters and digits.
pub open spec fn is_ascii_alnum(c: char) -> bool {
    ('0' <= c <= '9') || ('a' <= c <= 'z') || ('A' <= c <= 'Z')
}

/// Two adjacent fragments need a separating space when the first ends and
/// the second starts with an ASCII letter or digit.
pub fn needs_space_between(left: &str, right: &str) -> (b: bool)
    ensures
        b == (left@.len() > 0 && right@.len() > 0 && is_ascii_alnum(left@.last())
            && is_ascii_alnum(right@[0])),
{
    let l = chars_of(left);
    let r = chars_of(right);
    if l.len() == 0 || r.len() == 0 {
        return false;
    }
    let a = l[l.len() - 1];
    let b = r[0];
    let a_ok = ('0' <= a && a <= '9') || ('a' <= a && a <= 'z') || ('A' <= a && a <= 'Z');
    let b_ok = ('0' <= b && b <= '9') || ('a' <= b && b <= 'z') || ('A' <= b && b <= 'Z');
    a_ok && b_ok
}

// ---------------------------------------------------------------------------
// Leading line numbers
// ---------------------------------------------------------------------------

pub open spec fn is_digit(c: char) -> bool {
    '0' <= c <= '9'
}

/// Number of leading ASCII digits.
pub open spec fn digit_prefix_len(s: Seq<char>) -> nat
    decreases s.len(),
{
    if s.len() > 0 && is_digit(s[0]) {
        1 + digit_prefix_len(s.drop_first())
    } else {
        0
    }
}

/// Value of a string of decimal digits.
pub open spec fn digits_value(s: Seq<char>) -> nat
    decreases s.len(),
{
    if s.len() == 0 {
        0
    } else {
        digits_value(s.drop_last()) * 10 + ((s.last() as u32) - 48) as nat
    }
}

/// The number written by the leading digits of a line, when there are any
/// and the number fits in a `u32`.
pub open spec fn leading_number(s: Seq<char>) -> Option<u32> {
    let k = digit_prefix_len(s);
    if k == 0 {
        None
    } else if digits_value(s.subrange(0, k as int)) <= u32::MAX {
        Some(digits_value(s.subrange(0, k as int)) as u32)
    } else {
        None
    }
}

proof fn lemma_digit_prefix(s: Seq<char>)
    ensures
        digit_prefix_len(s) <= s.len(),
        forall|i: int| 0 <= i < digit_prefix_len(s) ==> is_digit(#[trigger] s[i]),
        digit_prefix_len(s) < s.len() ==> !is_digit(s[digit_prefix_len(s) as int]),
    decreases s.len(),
{
    if s.len() > 0 && is_digit(s[0]) {
        lemma_digit_prefix(s.drop_first());
        assert forall|i: int| 0 <= i < digit_prefix_len(s) implies is_digit(#[trigger] s[i]) by {
            if i > 0 {
                assert(s[i] == s.drop_first()[i - 1]);
            }
        }
    }
}

proof fn lemma_digit_prefix_exact(s: Seq<char>, k: int)
    requires
        0 <= k <= s.len(),
        forall|i: int| 0 <= i < k ==> is_digit(#[trigger] s[i]),
        k == s.len() || !is_digit(s[k]),
    ensures
        digit_prefix_len(s) == k,
    decreases s.len(),
{
    if k > 0 {
        assert forall|i: int| 0 <= i < k - 1 implies is_digit(#[trigger] s.drop_first()[i]) by {
            assert(s.drop_first()[i] == s[i + 1]);
        }
        if k - 1 < s.drop_first().len() {
            assert(s.drop_first()[k - 1] == s[k]);
        }
        lemma_digit_prefix_exact(s.drop_first(), k - 1);
    }
}

proof fn lemma_digits_value_mono(s: Seq<char>, k: int)
    requires
        0 <= k <= s.len(),
        forall|i: int| 0 <= i < s.len() ==> is_digit(#[trigger] s[i]),
    ensures
        digits_value(s.subrange(0, k)) <= digits_value(s),
    decreases s.len() - k,
{
    if k < s.len() {
        lemma_digits_value_mono(s, k + 1);
        assert(s.subrange(0, k + 1).drop_last() =~= s.subrange(0, k));
    } else {
        assert(s.subrange(0, k) =~= s);
    }
}

/// The decimal form of a number is all digits and reads back as the number.
proof fn lemma_decimal_digits(n: nat)
    ensures
        forall|i: int| 0 <= i < decimal(n).len() ==> is_digit(#[trigger] decimal(n)[i]),
        digits_value(decimal(n)) == n,
        decimal(n).len() >= 1,
    decreases n,
{
    if n < 10 {
        assert(decimal(n).drop_last() =~= Seq::<char>::empty());
        assert(digit_char(n) as u32 == n + 48);
        assert(digits_value(decimal(n).drop_last()) == 0);
        assert(decimal(n).last() == digit_char(n));
    } else {
        lemma_decimal_digits(n / 10);
        let d = decimal(n);
        assert forall|i: int| 0 <= i < d.len() implies is_digit(#[trigger] d[i]) by {
            if i < d.len() - 1 {
                assert(d[i] == decimal(n / 10)[i]);
            }
        }
        assert(d.drop_last() =~= decimal(n / 10));
    }
}

/// A printed line number reads back: a line that starts with the decimal
/// form of `n`, followed by anything but a digit, starts with the number
/// `n`, and stripping `n` leaves the rest without its leading whitespace.
pub proof fn lemma_printed_number_reads_back(n: u32, rest: Seq<char>)
    requires
        rest.len() == 0 || !is_digit(rest[0]),
    ensures
        leading_number(decimal(n as nat) + rest) == Some(n),
        strip_number_prefix(decimal(n as nat) + rest, n) == trim_start(rest),
{
    let d = decimal(n as nat);
    let s = d + rest;
    lemma_decimal_digits(n as nat);
    assert forall|i: int| 0 <= i < d.len() implies is_digit(#[trigger] s[i]) by {
        assert(s[i] == d[i]);
    }
    if rest.len() > 0 {
        assert(s[d.len() as int] == rest[0]);
    }
    lemma_digit_prefix_exact(s, d.len() as int);
    assert(s.subrange(0, d.len() as int) =~= d);
    assert(s.subrange(d.len() as int, s.len() as int) =~= rest);
}

/// The line number that a line of text starts with: its leading ASCII
/// digits, read as a `u32`; `None` without leading digits or on overflow.
pub fn extract_leading_number_candidate(text: &str) -> (n: Option<u32>)
    ensures
        n == leading_number(text@),
{
    let chars = chars_of(text);
    let mut k: usize = 0;
    while k < chars.len() && '0' <= chars[k] && chars[k] <= '9'
        invariant
            k <= chars@.len(),
            chars@ == text@,
            forall|i: int| 0 <= i < k ==> is_digit(#[trigger] chars@[i]),
        decreases chars@.len() - k,
    {
        k = k + 1;
    }
    proof {
        lemma_digit_prefix_exact(chars@, k as int);
    }
    if k == 0 {
        return None;
    }
    let ghost digits = chars@.subrange(0, k as int);
    let mut value: u64 = 0;
    let mut i: usize = 0;
    while i < k
        invariant
            i <= k <= chars@.len(),
            chars@ == text@,
            digit_prefix_len(text@) == k,
            digits == chars@.subrange(0, k as int),
            forall|j: int| 0 <= j < k ==> is_digit(#[trigger] chars@[j]),
            value <= u32::MAX,
            value == digits_value(digits.subrange(0, i as int)),
        decreases k - i,
    {
        let d = (chars[i] as u32 - 48) as u64;
        assert(digits.subrange(0, i + 1).drop_last() =~= digits.subrange(0, i as int));
        assert(digits.subrange(0, i + 1).last() == chars@[i as int]);
        let next = value * 10 + d;
        if next > 0xFFFF_FFFF {
            proof {
                assert forall|j: int| 0 <= j < digits.len() implies is_digit(#[trigger] digits[j]) by {
                    assert(digits[j] == chars@[j]);
                }
                lemma_digits_value_mono(digits, i + 1);
                assert(digits_value(digits.subrange(0, i + 1)) == next);
                assert(text@.subrange(0, k as int) == digits);
            }
            return None;
        }
        value = next;
        i = i + 1;
    }
    assert(digits.subrange(0, k as int) =~= digits);
    Some(value as u32)
}

/// The line with its printed line number removed: when the text starts with
/// the decimal form of `line_number`, that prefix and the whitespace after
/// it are dropped; otherwise the text is unchanged.
pub open spec fn strip_number_prefix(s: Seq<char>, line_number: u32) -> Seq<char> {
    let p = decimal(line_number as nat);
    if p.len() <= s.len() && s.subrange(0, p.len() as int) == p {
        trim_start(s.subrange(p.len() as int, s.len() as int))
    } else {
        s
    }
}

/// Removes a leading line number equal to `line_number`, with the
/// whitespace that follows it.
pub fn strip_matching_line_number_prefix(text: &str, line_number: u32) -> (out: String)
    ensures
        out@ == strip_number_prefix(text@, line_number),
{
    let chars = chars_of(text);
    let prefix = u32_decimal(line_number);
    if prefix.len() <= chars.len() {
        let mut i: usize = 0;
        while i < prefix.len()
            invariant
                i <= prefix@.len() <= chars@.len(),
                chars@ == text@,
                prefix@ == decimal(line_number as nat),
                forall|j: int| 0 <= j < i ==> chars@[j] == prefix@[j],
            decreases prefix@.len() - i,
        {
            if chars[i] != prefix[i] {
                assert(chars@.subrange(0, prefix@.len() as int) != prefix@) by {
                    assert(chars@.subrange(0, prefix@.len() as int)[i as int] != prefix@[i as int]);
                }
                return string_from_chars(chars.as_slice());
            }
            i = i + 1;
        }
        assert(chars@.subrange(0, prefix@.len() as int) =~= prefix@);
        let rest = copy_range(chars.as_slice(), prefix.len(), chars.len());
        let trimmed = trim_start_chars(rest.as_slice());
        string_from_chars(trimmed.as_slice())
    } else {
        string_from_chars(chars.as_slice())
    }
}

/// Appends `number` right-aligned in a field of `width` characters.
pub fn push_right_aligned_number(target: &mut String, number: u32, width: usize)
    ensures
        final(target)@ == old(target)@ + spaces(width - decimal(number as nat).len()) + decimal(
            number as nat,
        ),
{
    let digits = u32_decimal(number);
    let ghost start = target@;
    if width > digits.len() {
        let pad = width - digits.len();
        let mut k: usize = 0;
        while k < pad
            invariant
                k <= pad,
                target@ == start + spaces(k as int),
            decreases pad - k,
        {
            push_char(target, ' ');
            k = k + 1;
            assert(target@ =~= start + spaces(k as int));
        }
    }
    let text = string_from_chars(digits.as_slice());
    target.append(text.as_str());
    assert(target@ =~= start + spaces(width - decimal(number as nat).len()) + decimal(
        number as nat,
    ));
}

// ---------------------------------------------------------------------------
// Detecting printed line numbers
// ---------------------------------------------------------------------------

/// The `(line index, leading number)` pairs of the first `k` lines that start
/// with a number, in line order.
pub open spec fn numbered_lines(c: Seq<Option<u32>>, k: int) -> Seq<(int, u32)>
    decreases k,
{
    if k <= 0 {
        seq![]
    } else {
        let prev = numbered_lines(c, k - 1);
        match c[k - 1] {
            Some(v) => prev.push((k - 1, v)),
            None => prev,
        }
    }
}

/// How many of the first `k` pairs match `start + index == number`.
pub open spec fn exact_count(cands: Seq<(int, u32)>, start: int, k: int) -> nat
    decreases k,
{
    if k <= 0 {
        0
    } else {
        exact_count(cands, start, k - 1) + if start + cands[k - 1].0 == cands[k - 1].1 {
            1nat
        } else {
            0nat
        }
    }
}

/// How many of the first `k` pairs are within one of `start + index`.
pub open spec fn near_count(cands: Seq<(int, u32)>, start: int, k: int) -> nat
    decreases k,
{
    if k <= 0 {
        0
    } else {
        near_count(cands, start, k - 1) + if -1 <= start + cands[k - 1].0 - cands[k - 1].1 <= 1 {
            1nat
        } else {
            0nat
        }
    }
}

/// Largest number among the first `k` pairs (0 when there is none).
pub open spec fn max_number(cands: Seq<(int, u32)>, k: int) -> nat
    decreases k,
{
    if k <= 0 {
        0
    } else {
        let prev = max_number(cands, k - 1);
        if cands[k - 1].1 > prev {
            cands[k - 1].1 as nat
        } else {
            prev
        }
    }
}

/// Best numbering start among the first `k` pairs: each pair proposes the
/// start `number - index`; a proposal needs at least three exact matches,
/// and a later proposal wins with more exact matches, or as many exact and
/// more near matches. Returns `(start, exact, near)` of the winner.
pub open spec fn best_start(cands: Seq<(int, u32)>, k: int) -> Option<(u32, nat, nat)>
    decreases k,
{
    if k <= 0 {
        None
    } else {
        let prev = best_start(cands, k - 1);
        let (i, v) = cands[k - 1];
        if v < i {
            prev
        } else {
            let start = v - i;
            let e = exact_count(cands, start, cands.len() as int);
            let n = near_count(cands, start, cands.len() as int);
            if e < 3 {
                prev
            } else {
                match prev {
                    Some(b) => if e < b.1 || (e == b.1 && n <= b.2) {
                        prev
                    } else {
                        Some((start as u32, e, n))
                    },
                    None => Some((start as u32, e, n)),
                }
            }
        }
    }
}

/// The first line number of a numbered listing, given each line's leading
/// number: at least three numbered lines; numbers that could be ordinary
/// content (no inserted blank lines and no number above the line count + 2)
/// are ignored; otherwise the best supported start.
pub open spec fn numbering_start(c: Seq<Option<u32>>, original_line_count: nat) -> Option<u32> {
    let cands = numbered_lines(c, c.len() as int);
    if cands.len() < 3 {
        None
    } else if !(c.len() > original_line_count) && max_number(cands, cands.len() as int)
        <= original_line_count + 2 {
        None
    } else {
        match best_start(cands, cands.len() as int) {
            Some(b) => Some(b.0),
            None => None,
        }
    }
}

proof fn lemma_numbered_lines(c: Seq<Option<u32>>, k: int)
    requires
        0 <= k <= c.len(),
    ensures
        numbered_lines(c, k).len() <= k,
        forall|m: int|
            0 <= m < numbered_lines(c, k).len() ==> 0 <= (#[trigger] numbered_lines(c, k)[m]).0 < k
                && c[numbered_lines(c, k)[m].0] == Some(numbered_lines(c, k)[m].1),
    decreases k,
{
    if k > 0 {
        lemma_numbered_lines(c, k - 1);
    }
}

proof fn lemma_counts_bound(cands: Seq<(int, u32)>, start: int, k: int)
    requires
        0 <= k,
    ensures
        exact_count(cands, start, k) <= k,
        near_count(cands, start, k) <= k,
    decreases k,
{
    if k > 0 {
        lemma_counts_bound(cands, start, k - 1);
    }
}

/// How many of the first `k` lines carry the number `start + index`.
pub open spec fn lines_matching(c: Seq<Option<u32>>, start: int, k: int) -> nat
    decreases k,
{
    if k <= 0 {
        0
    } else {
        lines_matching(c, start, k - 1) + if c[k - 1] == Some((start + k - 1) as u32) && 0
            <= start + k - 1 <= u32::MAX {
            1nat
        } else {
            0nat
        }
    }
}

proof fn lemma_exact_count_prefix(a: Seq<(int, u32)>, x: (int, u32), start: int, m: int)
    requires
        0 <= m <= a.len(),
    ensures
        exact_count(a.push(x), start, m) == exact_count(a, start, m),
    decreases m,
{
    if m > 0 {
        lemma_exact_count_prefix(a, x, start, m - 1);
    }
}

/// Counting exact matches over the numbered lines counts the lines that
/// carry `start + index`.
proof fn lemma_exact_count_lines(c: Seq<Option<u32>>, start: int, k: int)
    requires
        0 <= k <= c.len(),
    ensures
        exact_count(numbered_lines(c, k), start, numbered_lines(c, k).len() as int)
            == lines_matching(c, start, k),
    decreases k,
{
    if k > 0 {
        lemma_exact_count_lines(c, start, k - 1);
        let prev = numbered_lines(c, k - 1);
        match c[k - 1] {
            Some(v) => {
                lemma_exact_count_prefix(prev, (k - 1, v), start, prev.len() as int);
            },
            None => {},
        }
    }
}

proof fn lemma_exact_count_witness(cands: Seq<(int, u32)>, start: int, k: int)
    requires
        0 <= k <= cands.len(),
        exact_count(cands, start, k) > 0,
    ensures
        exists|j: int| 0 <= j < k && start + (#[trigger] cands[j]).0 == cands[j].1,
    decreases k,
{
    if exact_count(cands, start, k - 1) > 0 {
        lemma_exact_count_witness(cands, start, k - 1);
        let j = choose|j: int| 0 <= j < k - 1 && start + (#[trigger] cands[j]).0 == cands[j].1;
        assert(start + cands[j].0 == cands[j].1);
    } else {
        assert(start + cands[k - 1].0 == cands[k - 1].1);
    }
}

/// The winning start has as many exact matches as every proposal with at
/// least three, and its match counts are its own.
proof fn lemma_best_start(cands: Seq<(int, u32)>, k: int)
    requires
        0 <= k <= cands.len(),
        forall|j: int| 0 <= j < cands.len() ==> 0 <= (#[trigger] cands[j]).0,
    ensures
        best_start(cands, k) matches Some(b) ==> b.1 == exact_count(cands, b.0 as int, cands.len() as int),
        forall|j: int|
            0 <= j < k && (#[trigger] cands[j]).1 >= cands[j].0 && exact_count(
                cands,
                cands[j].1 - cands[j].0,
                cands.len() as int,
            ) >= 3 ==> (best_start(cands, k) matches Some(b) && b.1 >= exact_count(
                cands,
                cands[j].1 - cands[j].0,
                cands.len() as int,
            )),
    decreases k,
{
    if k > 0 {
        lemma_best_start(cands, k - 1);
    }
}

/// With blank rows inserted (more lines than the page had), small numbers
/// are not taken for content: when at least three lines `i` carry the
/// number `start + i` and every other start is carried by fewer lines, the
/// numbering starts at `start`.
pub proof fn lemma_numbering_with_blank_rows(c: Seq<Option<u32>>, original_line_count: nat, start: u32)
    requires
        c.len() > original_line_count,
        lines_matching(c, start as int, c.len() as int) >= 3,
        forall|other: int|
            other != start ==> #[trigger] lines_matching(c, other, c.len() as int) < lines_matching(
                c,
                start as int,
                c.len() as int,
            ),
    ensures
        numbering_start(c, original_line_count) == Some(start),
{
    let cands = numbered_lines(c, c.len() as int);
    let n = cands.len() as int;
    lemma_numbered_lines(c, c.len() as int);
    lemma_exact_count_lines(c, start as int, c.len() as int);
    lemma_counts_bound(cands, start as int, n);
    lemma_exact_count_witness(cands, start as int, n);
    let j = choose|j: int| 0 <= j < n && start + (#[trigger] cands[j]).0 == cands[j].1;
    assert(cands[j].1 - cands[j].0 == start);
    lemma_best_start(cands, n);
    let b = best_start(cands, n).unwrap();
    if b.0 != start {
        lemma_exact_count_lines(c, b.0 as int, c.len() as int);
        assert(lines_matching(c, b.0 as int, c.len() as int) < lines_matching(
            c,
            start as int,
            c.len() as int,
        ));
    }
}

proof fn lemma_max_number_bound(c: Seq<Option<u32>>, k: int, bound: int)
    requires
        0 <= k <= c.len(),
        0 <= bound,
        forall|i: int| 0 <= i < c.len() && #[trigger] c[i] is Some ==> c[i]->0 <= bound,
    ensures
        max_number(numbered_lines(c, k), numbered_lines(c, k).len() as int) <= bound,
    decreases k,
{
    if k > 0 {
        lemma_max_number_bound(c, k - 1, bound);
        let prev = numbered_lines(c, k - 1);
        match c[k - 1] {
            Some(v) => {
                let next = prev.push((k - 1, v));
                assert forall|m: int| 0 <= m <= prev.len() implies max_number(next, m) == max_number(
                    prev,
                    m,
                ) by {
                    lemma_max_number_prefix(prev, (k - 1, v), m);
                }
            },
            None => {},
        }
    }
}

proof fn lemma_max_number_prefix(a: Seq<(int, u32)>, x: (int, u32), m: int)
    requires
        0 <= m <= a.len(),
    ensures
        max_number(a.push(x), m) == max_number(a, m),
    decreases m,
{
    if m > 0 {
        lemma_max_number_prefix(a, x, m - 1);
    }
}

/// Fewer than three numbered lines never make a numbering.
pub proof fn lemma_numbering_needs_three(c: Seq<Option<u32>>, original_line_count: nat)
    requires
        forall|i: int, j: int, l: int|
            0 <= i < j < l < c.len() ==> !(#[trigger] c[i] is Some && #[trigger] c[j] is Some
                && #[trigger] c[l] is Some),
    ensures
        numbering_start(c, original_line_count) is None,
{
    lemma_few_numbered(c, c.len() as int);
}

proof fn lemma_few_numbered(c: Seq<Option<u32>>, k: int)
    requires
        0 <= k <= c.len(),
        forall|i: int, j: int, l: int|
            0 <= i < j < l < c.len() ==> !(#[trigger] c[i] is Some && #[trigger] c[j] is Some
                && #[trigger] c[l] is Some),
    ensures
        numbered_lines(c, k).len() < 3,
        numbered_lines(c, k).len() >= 1 ==> c[numbered_lines(c, k)[0].0] is Some && 0 <= numbered_lines(c, k)[0].0 < k,
        numbered_lines(c, k).len() >= 2 ==> c[numbered_lines(c, k)[1].0] is Some && numbered_lines(c, k)[0].0 < numbered_lines(c, k)[1].0 < k,
    decreases k,
{
    if k > 0 {
        lemma_few_numbered(c, k - 1);
        lemma_numbered_lines(c, k - 1);
    }
}

/// Without inserted blank rows, numbers no larger than the line count + 2
/// are taken for content and give no numbering.
pub proof fn lemma_small_numbers_are_content(c: Seq<Option<u32>>, original_line_count: nat)
    requires
        c.len() <= original_line_count,
        forall|i: int| 0 <= i < c.len() && #[trigger] c[i] is Some ==> c[i]->0 <= original_line_count + 2,
    ensures
        numbering_start(c, original_line_count) is None,
{
    lemma_max_number_bound(c, c.len() as int, original_line_count as int + 2);
}

/// Detects the printed numbering of the lines from each line's leading
/// number (`None` for lines without one) and the number of lines before
/// blank rows were inserted. Tolerates isolated outliers.
pub fn detect_line_numbering_start(
    candidates: &[Option<u32>],
    original_line_count: usize,
) -> (start: Option<u32>)
    requires
        candidates@.len() <= u32::MAX,
        candidates@.len() > original_line_count || original_line_count + 2 <= usize::MAX,
        forall|i: int, j: int|
            0 <= i < candidates@.len() && 0 <= j < candidates@.len() && candidates@[i] is Some
                && candidates@[j] is Some && candidates@[i]->0 >= i ==> #[trigger] candidates@[i]->0
                - i + j <= u32::MAX,
    ensures
        start == numbering_start(candidates@, original_line_count as nat),
{
    let ghost c = candidates@;
    let mut cands: Vec<(usize, u32)> = Vec::new();
    let mut k: usize = 0;
    while k < candidates.len()
        invariant
            k <= c.len(),
            c == candidates@,
            cands@.len() == numbered_lines(c, k as int).len(),
            forall|m: int|
                0 <= m < cands@.len() ==> (#[trigger] cands@[m]).0 as int == numbered_lines(c, k as int)[m].0
                    && cands@[m].1 == numbered_lines(c, k as int)[m].1,
        decreases c.len() - k,
    {
        proof {
            lemma_numbered_lines(c, k as int);
        }
        match candidates[k] {
            Some(v) => {
                cands.push((k, v));
            },
            None => {},
        }
        k = k + 1;
    }
    let ghost cs = numbered_lines(c, c.len() as int);
    proof {
        lemma_numbered_lines(c, c.len() as int);
    }
    let ncands = cands.len();
    if ncands < 3 {
        return None;
    }
    let has_blank_slots = candidates.len() > original_line_count;
    let mut max_candidate: u32 = 0;
    let mut m: usize = 0;
    while m < ncands
        invariant
            m <= ncands,
            ncands == cands@.len(),
            cs.len() == ncands,
            forall|q: int| 0 <= q < ncands ==> (#[trigger] cands@[q]).0 as int == cs[q].0 && cands@[q].1 == cs[q].1,
            max_candidate == max_number(cs, m as int),
        decreases ncands - m,
    {
        if cands[m].1 > max_candidate {
            max_candidate = cands[m].1;
        }
        m = m + 1;
    }
    if !has_blank_slots && max_candidate as usize <= original_line_count + 2 {
        return None;
    }
    let mut best: Option<(u32, usize, usize)> = None;
    let mut a: usize = 0;
    while a < ncands
        invariant
            a <= ncands,
            ncands == cands@.len(),
            cs == numbered_lines(c, c.len() as int),
            cs.len() == ncands,
            c == candidates@,
            c.len() <= u32::MAX,
            forall|q: int| 0 <= q < ncands ==> (#[trigger] cands@[q]).0 as int == cs[q].0 && cands@[q].1 == cs[q].1,
            forall|q: int|
                0 <= q < cs.len() ==> 0 <= (#[trigger] cs[q]).0 < c.len() && c[cs[q].0] == Some(cs[q].1),
            forall|i: int, j: int|
                0 <= i < c.len() && 0 <= j < c.len() && c[i] is Some && c[j] is Some && c[i]->0 >= i
                    ==> #[trigger] c[i]->0 - i + j <= u32::MAX,
            match best {
                Some(b) => best_start(cs, a as int) == Some((b.0, b.1 as nat, b.2 as nat)),
                None => best_start(cs, a as int) is None,
            },
        decreases ncands - a,
    {
        let (line_index, candidate) = cands[a];
        let li = line_index as u32;
        if candidate >= li {
            let start = candidate - li;
            let mut exact: usize = 0;
            let mut near: usize = 0;
            let mut b: usize = 0;
            while b < ncands
                invariant
                    b <= ncands,
                    ncands == cands@.len(),
                    cs.len() == ncands,
                    c == candidates@,
                    forall|q: int| 0 <= q < ncands ==> (#[trigger] cands@[q]).0 as int == cs[q].0 && cands@[q].1 == cs[q].1,
                    forall|q: int|
                        0 <= q < cs.len() ==> 0 <= (#[trigger] cs[q]).0 < c.len() && c[cs[q].0] == Some(cs[q].1),
                    forall|i: int, j: int|
                        0 <= i < c.len() && 0 <= j < c.len() && c[i] is Some && c[j] is Some && c[i]->0 >= i
                            ==> #[trigger] c[i]->0 - i + j <= u32::MAX,
                    0 <= cs[a as int].0 < c.len(),
                    c[cs[a as int].0] == Some(candidate),
                    start == candidate - cs[a as int].0,
                    exact == exact_count(cs, start as int, b as int),
                    near == near_count(cs, start as int, b as int),
                decreases ncands - b,
            {
                proof {
                    lemma_counts_bound(cs, start as int, b as int);
                    assert(c[cs[a as int].0]->0 - cs[a as int].0 + cs[b as int].0 <= u32::MAX);
                }
                let (index, value) = cands[b];
                if start + index as u32 == value {
                    exact = exact + 1;
                }
                let diff = start as i64 + index as i64 - value as i64;
                if -1 <= diff && diff <= 1 {
                    near = near + 1;
                }
                b = b + 1;
            }
            if exact >= 3 {
                match best {
                    Some((_, best_exact, best_near)) => {
                        if exact < best_exact || (exact == best_exact && near <= best_near) {
                        } else {
                            best = Some((start, exact, near));
                        }
                    },
                    None => {
                        best = Some((start, exact, near));
                    },
                }
            }
        }
        a = a + 1;
    }
    match best {
        Some((start, _, _)) => Some(start),
        None => None,
    }
}

// ---------------------------------------------------------------------------
// Assembling numbered text
// ---------------------------------------------------------------------------

/// Width of the line-number column: the digits of the last line number.
pub open spec fn number_column_width(start: Option<u32>, count: nat) -> nat {
    match start {
        Some(s) => decimal((s + if count > 0 { count - 1 } else { 0 }) as nat).len(),
        None => 0,
    }
}

/// One output line. With numbering, the number `start + index` is printed
/// right-aligned, the same number is stripped from the text, and two spaces
/// separate them unless nothing else is left; trailing whitespace is dropped.
pub open spec fn numbered_line(text: Seq<char>, start: Option<u32>, index: int, width: nat) -> Seq<
    char,
> {
    match start {
        Some(s) => {
            let n = (s + index) as u32;
            let content = strip_number_prefix(text, n);
            spaces(width - decimal(n as nat).len()) + decimal(n as nat) + (if trim(content).len()
                > 0 {
                seq![' ', ' ']
            } else {
                seq![]
            }) + trim_end(content)
        },
        None => trim_end(text),
    }
}

/// The lines of a page joined by newlines, each rendered by `numbered_line`.
pub open spec fn numbered_text(texts: Seq<Seq<char>>, start: Option<u32>) -> Seq<char> {
    let width = number_column_width(start, texts.len());
    crate::layout::join(
        Seq::new(texts.len(), |i: int| numbered_line(texts[i], start, i, width)),
        '\n',
    )
}

/// Joins reconstructed lines into the final text, printing the detected
/// line numbers (if any) in a right-aligned column.
pub fn join_numbered_lines(texts: &[String], numbering_start: Option<u32>) -> (text: String)
    requires
        numbering_start matches Some(s) ==> s + texts@.len() <= u32::MAX + 1,
    ensures
        text@ == numbered_text(texts@.map_values(|t: String| t@), numbering_start),
{
    let ghost views = texts@.map_values(|t: String| t@);
    let n = texts.len();
    let width: usize = match numbering_start {
        Some(start) => {
            let last = if n > 0 {
                start + (n - 1) as u32
            } else {
                start
            };
            u32_decimal(last).len()
        },
        None => 0,
    };
    let ghost lines = Seq::new(
        views.len(),
        |i: int| numbered_line(views[i], numbering_start, i, width as nat),
    );
    let mut out = String::new();
    let mut i: usize = 0;
    while i < n
        invariant
            i <= n,
            n == texts@.len(),
            views == texts@.map_values(|t: String| t@),
            width == number_column_width(numbering_start, n as nat),
            numbering_start matches Some(s) ==> s + n <= u32::MAX + 1,
            lines == Seq::new(
                views.len(),
                |i: int| numbered_line(views[i], numbering_start, i, width as nat),
            ),
            out@ == crate::layout::join(lines.subrange(0, i as int), '\n'),
        decreases n - i,
    {
        if i > 0 {
            push_char(&mut out, '\n');
        }
        let ghost before = out@;
        let chars = chars_of(texts[i].as_str());
        match numbering_start {
            Some(start) => {
                let line_number = start + i as u32;
                push_right_aligned_number(&mut out, line_number, width);
                let content = strip_matching_line_number_prefix(texts[i].as_str(), line_number);
                let content_chars = chars_of(content.as_str());
                let trimmed = trim_chars(content_chars.as_slice());
                if trimmed.len() > 0 {
                    push_char(&mut out, ' ');
                    push_char(&mut out, ' ');
                }
                let tail = trim_end_chars(content_chars.as_slice());
                let tail_text = string_from_chars(tail.as_slice());
                out.append(tail_text.as_str());
            },
            None => {
                let tail = trim_end_chars(chars.as_slice());
                let tail_text = string_from_chars(tail.as_slice());
                out.append(tail_text.as_str());
            },
        }
        proof {
            assert(views[i as int] == texts@[i as int]@);
            assert(out@ =~= before + lines[i as int]);
            crate::layout::lemma_join_step(lines, '\n', i + 1);
            assert(out@ =~= crate::layout::join(lines.subrange(0, i + 1), '\n'));
        }
        i = i + 1;
    }
    assert(lines.subrange(0, n as int) =~= lines);
    out
}

} // verus!
