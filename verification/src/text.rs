use vstd::prelude::*;

verus! {

broadcast use vstd::string::group_string_axioms;

/// `String::push`: appends one character to the string.
#[verifier::external_body]
pub(crate) fn push_char(s: &mut String, c: char)
    ensures
        final(s)@ == old(s)@.push(c),
{
    s.push(c);
}

/// Builds a string holding exactly the given characters.
pub fn string_from_chars(chars: &[char]) -> (s: String)
    ensures
        s@ == chars@,
{
    let mut s = String::new();
    let mut i: usize = 0;
    while i < chars.len()
        invariant
            i <= chars@.len(),
            s@ == chars@.subrange(0, i as int),
        decreases chars@.len() - i,
    {
        push_char(&mut s, chars[i]);
        i = i + 1;
        assert(s@ == chars@.subrange(0, i as int));
    }
    s
}

/// The characters of a string slice, in order.
pub fn chars_of(s: &str) -> (v: Vec<char>)
    ensures
        v@ == s@,
{
    let mut v: Vec<char> = Vec::new();
    for c in it: s.chars()
        invariant
            v@ == it.seq().subrange(0, it.index() as int),
    {
        v.push(c);
    }
    assert(v@ == s@);
    v
}

} // verus!

verus! {

/// Unicode `White_Space`, the property that `char::is_whitespace` tests.
pub open spec fn is_ws(c: char) -> bool {
    let u = c as u32;
    ||| 0x9 <= u <= 0xD
    ||| u == 0x20
    ||| u == 0x85
    ||| u == 0xA0
    ||| u == 0x1680
    ||| 0x2000 <= u <= 0x200A
    ||| u == 0x2028
    ||| u == 0x2029
    ||| u == 0x202F
    ||| u == 0x205F
    ||| u == 0x3000
}

/// Executable test for Unicode `White_Space`.
pub fn is_whitespace(c: char) -> (b: bool)
    ensures
        b == is_ws(c),
{
    let u = c as u32;
    (0x9 <= u && u <= 0xD) || u == 0x20 || u == 0x85 || u == 0xA0 || u == 0x1680 || (0x2000 <= u
        && u <= 0x200A) || u == 0x2028 || u == 0x2029 || u == 0x202F || u == 0x205F || u == 0x3000
}

/// Number of leading whitespace characters.
pub open spec fn leading_ws(s: Seq<char>) -> nat
    decreases s.len(),
{
    if s.len() > 0 && is_ws(s[0]) {
        1 + leading_ws(s.drop_first())
    } else {
        0
    }
}

/// Number of trailing whitespace characters.
pub open spec fn trailing_ws(s: Seq<char>) -> nat
    decreases s.len(),
{
    if s.len() > 0 && is_ws(s.last()) {
        1 + trailing_ws(s.drop_last())
    } else {
        0
    }
}

/// `str::trim_start`: drops the leading whitespace.
pub open spec fn trim_start(s: Seq<char>) -> Seq<char> {
    s.subrange(leading_ws(s) as int, s.len() as int)
}

/// `str::trim_end`: drops the trailing whitespace.
pub open spec fn trim_end(s: Seq<char>) -> Seq<char> {
    s.subrange(0, s.len() - trailing_ws(s))
}

/// `str::trim`: drops leading and trailing whitespace.
pub open spec fn trim(s: Seq<char>) -> Seq<char> {
    trim_end(trim_start(s))
}

/// The leading whitespace run lies inside the text, holds whitespace only,
/// and is followed by a character that is not whitespace.
pub proof fn lemma_leading_ws_bound(s: Seq<char>)
    ensures
        leading_ws(s) <= s.len(),
        forall|i: int| 0 <= i < leading_ws(s) ==> is_ws(#[trigger] s[i]),
        leading_ws(s) < s.len() ==> !is_ws(s[leading_ws(s) as int]),
    decreases s.len(),
{
    if s.len() > 0 && is_ws(s[0]) {
        lemma_leading_ws_bound(s.drop_first());
        assert forall|i: int| 0 <= i < leading_ws(s) implies is_ws(#[trigger] s[i]) by {
            if i > 0 {
                assert(s[i] == s.drop_first()[i - 1]);
            }
        }
    }
}

/// The trailing whitespace run lies inside the text.
pub proof fn lemma_trailing_ws_bound(s: Seq<char>)
    ensures
        trailing_ws(s) <= s.len(),
    decreases s.len(),
{
    if s.len() > 0 && is_ws(s.last()) {
        lemma_trailing_ws_bound(s.drop_last());
    }
}

/// Trimming never lengthens a text.
pub proof fn lemma_trim_len(s: Seq<char>)
    ensures
        trim(s).len() <= s.len(),
{
    lemma_leading_ws_bound(s);
    lemma_trailing_ws_bound(trim_start(s));
}

/// Counts the leading whitespace characters of `s`.
fn count_leading_ws(s: &[char]) -> (n: usize)
    ensures
        n == leading_ws(s@),
{
    let mut i: usize = 0;
    proof {
        lemma_leading_ws_bound(s@);
        assert(s@.subrange(0, s@.len() as int) =~= s@);
    }
    while i < s.len() && is_whitespace(s[i])
        invariant
            i <= s@.len(),
            i <= leading_ws(s@),
            leading_ws(s@) <= s@.len(),
            leading_ws(s@.subrange(i as int, s@.len() as int)) + i == leading_ws(s@),
        decreases s@.len() - i,
    {
        let ghost rest = s@.subrange(i as int, s@.len() as int);
        assert(rest.drop_first() =~= s@.subrange(i + 1, s@.len() as int));
        i = i + 1;
    }
    proof {
        let rest = s@.subrange(i as int, s@.len() as int);
        if i < s@.len() {
            assert(rest[0] == s@[i as int]);
        }
    }
    i
}

/// Counts the trailing whitespace characters of `s`.
fn count_trailing_ws(s: &[char]) -> (n: usize)
    ensures
        n == trailing_ws(s@),
{
    let mut k: usize = s.len();
    proof {
        lemma_trailing_ws_bound(s@);
        assert(s@.subrange(0, s@.len() as int) =~= s@);
    }
    while k > 0 && is_whitespace(s[k - 1])
        invariant
            k <= s@.len(),
            trailing_ws(s@.subrange(0, k as int)) + (s@.len() - k) == trailing_ws(s@),
        decreases k,
    {
        let ghost pre = s@.subrange(0, k as int);
        assert(pre.drop_last() =~= s@.subrange(0, k - 1));
        k = k - 1;
    }
    proof {
        let pre = s@.subrange(0, k as int);
        if k > 0 {
            assert(pre.last() == s@[k - 1]);
        }
    }
    s.len() - k
}

/// Copies `s[from..to]` into a new vector.
pub fn copy_range(s: &[char], from: usize, to: usize) -> (v: Vec<char>)
    requires
        from <= to <= s@.len(),
    ensures
        v@ == s@.subrange(from as int, to as int),
{
    let mut v: Vec<char> = Vec::new();
    let mut i = from;
    while i < to
        invariant
            from <= i <= to,
            to <= s@.len(),
            v@ == s@.subrange(from as int, i as int),
        decreases to - i,
    {
        v.push(s[i]);
        i = i + 1;
    }
    v
}

/// Characters of `s` without leading whitespace.
pub fn trim_start_chars(s: &[char]) -> (v: Vec<char>)
    ensures
        v@ == trim_start(s@),
{
    let n = count_leading_ws(s);
    proof {
        lemma_leading_ws_bound(s@);
    }
    copy_range(s, n, s.len())
}

/// Characters of `s` without trailing whitespace.
pub fn trim_end_chars(s: &[char]) -> (v: Vec<char>)
    ensures
        v@ == trim_end(s@),
{
    let n = count_trailing_ws(s);
    proof {
        lemma_trailing_ws_bound(s@);
    }
    copy_range(s, 0, s.len() - n)
}

/// Characters of `s` without leading or trailing whitespace.
pub fn trim_chars(s: &[char]) -> (v: Vec<char>)
    ensures
        v@ == trim(s@),
{
    let t = trim_start_chars(s);
    trim_end_chars(t.as_slice())
}

// ---------------------------------------------------------------------------
// Decimal notation
// ---------------------------------------------------------------------------

/// The ASCII digit for `d < 10`.
pub open spec fn digit_char(d: nat) -> char {
    ((d + 48) as u32) as char
}

/// Decimal notation of `n`, without leading zeros (`"0"` for zero).
pub open spec fn decimal(n: nat) -> Seq<char>
    decreases n,
{
    if n < 10 {
        seq![digit_char(n)]
    } else {
        decimal(n / 10).push(digit_char(n % 10))
    }
}

/// Decimal notation of a `u32`, as `u32::to_string` writes it.
pub fn u32_decimal(n: u32) -> (v: Vec<char>)
    ensures
        v@ == decimal(n as nat),
    decreases n,
{
    let d = n % 10;
    let c = digit_of(d);
    if n < 10 {
        let mut v: Vec<char> = Vec::new();
        v.push(c);
        v
    } else {
        let mut v = u32_decimal(n / 10);
        v.push(c);
        v
    }
}

fn digit_of(d: u32) -> (c: char)
    requires
        d < 10,
    ensures
        c == digit_char(d as nat),
{
    if d == 0 {
        '0'
    } else if d == 1 {
        '1'
    } else if d == 2 {
        '2'
    } else if d == 3 {
        '3'
    } else if d == 4 {
        '4'
    } else if d == 5 {
        '5'
    } else if d == 6 {
        '6'
    } else if d == 7 {
        '7'
    } else if d == 8 {
        '8'
    } else {
        '9'
    }
}

} // verus!
