//! Names and ordering of saved model directories.
use vstd::prelude::*;

use crate::text::{chars_of, decimal, digit_char, string_from_chars};

verus! {

broadcast use vstd::string::group_string_axioms;

/// Characters that a directory name keeps: ASCII letters and digits, `-`, `_`.
pub open spec fn name_char_ok(c: char) -> bool {
    ||| ('a' <= c && c <= 'z')
    ||| ('A' <= c && c <= 'Z')
    ||| ('0' <= c && c <= '9')
    ||| c == '-'
    ||| c == '_'
}

/// Every character that a directory name cannot keep replaced by `-`.
pub open spec fn dashed(s: Seq<char>) -> Seq<char> {
    s.map_values(|c: char| if name_char_ok(c) { c } else { '-' })
}

/// Number of leading `-`.
pub open spec fn leading_dashes(s: Seq<char>) -> nat
    decreases s.len(),
{
    if s.len() > 0 && s[0] == '-' {
        1 + leading_dashes(s.drop_first())
    } else {
        0
    }
}

/// Number of trailing `-`.
pub open spec fn trailing_dashes(s: Seq<char>) -> nat
    decreases s.len(),
{
    if s.len() > 0 && s.last() == '-' {
        1 + trailing_dashes(s.drop_last())
    } else {
        0
    }
}

/// `s` without its leading and trailing `-` (`str::trim_matches('-')`).
pub open spec fn trim_dashes(s: Seq<char>) -> Seq<char> {
    let t = s.subrange(leading_dashes(s) as int, s.len() as int);
    t.subrange(0, t.len() - trailing_dashes(t))
}

/// The directory-safe form of a model name, or `fallback` when nothing of
/// the name is left.
pub open spec fn sanitized(name: Seq<char>, fallback: Seq<char>) -> Seq<char> {
    let t = trim_dashes(dashed(name));
    if t.len() == 0 {
        fallback
    } else {
        t
    }
}

proof fn lemma_leading_dashes(s: Seq<char>)
    ensures
        leading_dashes(s) <= s.len(),
        leading_dashes(s) < s.len() ==> s[leading_dashes(s) as int] != '-',
    decreases s.len(),
{
    if s.len() > 0 && s[0] == '-' {
        lemma_leading_dashes(s.drop_first());
        if leading_dashes(s) < s.len() {
            assert(s[leading_dashes(s) as int] == s.drop_first()[leading_dashes(s.drop_first()) as int]);
        }
    }
}

proof fn lemma_trailing_dashes(s: Seq<char>)
    ensures
        trailing_dashes(s) <= s.len(),
        trailing_dashes(s) < s.len() ==> s[s.len() - 1 - trailing_dashes(s)] != '-',
    decreases s.len(),
{
    if s.len() > 0 && s.last() == '-' {
        lemma_trailing_dashes(s.drop_last());
        if trailing_dashes(s) < s.len() {
            assert(s[s.len() - 1 - trailing_dashes(s)] == s.drop_last()[s.drop_last().len() - 1
                - trailing_dashes(s.drop_last())]);
        }
    }
}

/// A name a directory can carry as it is: not empty, only ASCII letters,
/// digits, `-` and `_`, and no `-` at either end.
pub open spec fn is_clean_name(s: Seq<char>) -> bool {
    &&& s.len() > 0
    &&& forall|i: int| 0 <= i < s.len() ==> name_char_ok(#[trigger] s[i])
    &&& s[0] != '-'
    &&& s.last() != '-'
}

/// With a clean fallback, a sanitized name is always clean.
pub proof fn lemma_sanitized_is_clean(name: Seq<char>, fallback: Seq<char>)
    requires
        is_clean_name(fallback),
    ensures
        is_clean_name(sanitized(name, fallback)),
{
    let d = dashed(name);
    let u = d.subrange(leading_dashes(d) as int, d.len() as int);
    let t = trim_dashes(d);
    lemma_leading_dashes(d);
    lemma_trailing_dashes(u);
    if t.len() > 0 {
        assert forall|i: int| 0 <= i < t.len() implies name_char_ok(#[trigger] t[i]) by {
            assert(t[i] == d[leading_dashes(d) + i]);
        }
        assert(t[0] == u[0]);
        assert(t.last() == u[u.len() - 1 - trailing_dashes(u)]);
    }
}

/// A clean name is its own sanitized form.
proof fn lemma_clean_name_fixed(t: Seq<char>, fallback: Seq<char>)
    requires
        is_clean_name(t),
    ensures
        sanitized(t, fallback) == t,
{
    assert(dashed(t) =~= t);
    assert(leading_dashes(t) == 0);
    let u = t.subrange(0, t.len() as int);
    assert(u =~= t);
    assert(trailing_dashes(u) == 0);
    assert(trim_dashes(t) =~= t);
}

/// Sanitizing is idempotent: a sanitized name sanitizes to itself.
pub proof fn lemma_sanitize_idempotent(name: Seq<char>, fallback: Seq<char>)
    requires
        is_clean_name(fallback),
    ensures
        sanitized(sanitized(name, fallback), fallback) == sanitized(name, fallback),
{
    lemma_sanitized_is_clean(name, fallback);
    lemma_clean_name_fixed(sanitized(name, fallback), fallback);
}

/// Whether a character may stay in a directory name.
fn keeps_char(c: char) -> (b: bool)
    ensures
        b == name_char_ok(c),
{
    ('a' <= c && c <= 'z') || ('A' <= c && c <= 'Z') || ('0' <= c && c <= '9') || c == '-' || c
        == '_'
}

/// Replaces the characters that a directory name cannot hold by `-`, trims
/// `-` from both ends, and falls back to `fallback` when nothing is left.
pub fn sanitize_name(name: &str, fallback: &str) -> (s: String)
    ensures
        s@ == sanitized(name@, fallback@),
{
    let chars = chars_of(name);
    let mut mapped: Vec<char> = Vec::new();
    let mut i: usize = 0;
    while i < chars.len()
        invariant
            i <= chars@.len(),
            chars@ == name@,
            mapped@ == dashed(chars@.subrange(0, i as int)),
        decreases chars@.len() - i,
    {
        let c = chars[i];
        if keeps_char(c) {
            mapped.push(c);
        } else {
            mapped.push('-');
        }
        i = i + 1;
        assert(mapped@ =~= dashed(chars@.subrange(0, i as int)));
    }
    assert(chars@.subrange(0, chars@.len() as int) =~= chars@);
    let ghost d = mapped@;
    // leading dashes
    let mut a: usize = 0;
    proof {
        lemma_leading_dashes(d);
        assert(d.subrange(0, d.len() as int) =~= d);
    }
    while a < mapped.len() && mapped[a] == '-'
        invariant
            d == mapped@,
            a <= d.len(),
            leading_dashes(d.subrange(a as int, d.len() as int)) + a == leading_dashes(d),
        decreases d.len() - a,
    {
        let ghost rest = d.subrange(a as int, d.len() as int);
        assert(rest.drop_first() =~= d.subrange(a + 1, d.len() as int));
        a = a + 1;
    }
    proof {
        let rest = d.subrange(a as int, d.len() as int);
        if a < d.len() {
            assert(rest[0] == d[a as int]);
        }
    }
    let ghost t = d.subrange(a as int, d.len() as int);
    // trailing dashes
    let mut b: usize = mapped.len();
    proof {
        lemma_trailing_dashes(t);
        assert(t.subrange(0, t.len() as int) =~= t);
    }
    while b > a && mapped[b - 1] == '-'
        invariant
            d == mapped@,
            a <= b <= d.len(),
            t == d.subrange(a as int, d.len() as int),
            trailing_dashes(t.subrange(0, b - a)) + (d.len() - b) == trailing_dashes(t),
        decreases b,
    {
        let ghost pre = t.subrange(0, b - a);
        assert(pre.drop_last() =~= t.subrange(0, b - 1 - a));
        assert(pre.last() == mapped@[b - 1]);
        b = b - 1;
    }
    proof {
        let pre = t.subrange(0, b - a);
        if b > a {
            assert(pre.last() == d[b - 1]);
        }
        assert(t.subrange(0, t.len() - trailing_dashes(t)) =~= d.subrange(a as int, b as int));
    }
    if a == b {
        let mut out = String::new();
        out.append(fallback);
        return out;
    }
    let mut out_chars: Vec<char> = Vec::new();
    let mut k: usize = a;
    while k < b
        invariant
            a <= k <= b <= d.len(),
            d == mapped@,
            out_chars@ == d.subrange(a as int, k as int),
        decreases b - k,
    {
        out_chars.push(mapped[k]);
        k = k + 1;
    }
    string_from_chars(out_chars.as_slice())
}

/// Decimal notation of a `u64`, as `u64::to_string` writes it.
pub fn u64_decimal(n: u64) -> (v: Vec<char>)
    ensures
        v@ == decimal(n as nat),
    decreases n,
{
    let d = (n % 10) as u32;
    let c = digit_of_u32(d);
    if n < 10 {
        let mut v: Vec<char> = Vec::new();
        v.push(c);
        v
    } else {
        let mut v = u64_decimal(n / 10);
        v.push(c);
        v
    }
}

fn digit_of_u32(d: u32) -> (c: char)
    requires
        d < 10,
    ensures
        c == digit_char(d as nat),
{
    let digits: [char; 10] = ['0', '1', '2', '3', '4', '5', '6', '7', '8', '9'];
    assert(digits@[d as int] == digit_char(d as nat)) by {
        assert(digits@ =~= seq!['0', '1', '2', '3', '4', '5', '6', '7', '8', '9']);
    }
    digits[d as usize]
}

/// Name of the directory a model is saved in: its creation time in Unix
/// seconds, a `-`, and its sanitized name.
pub open spec fn model_dir_name_spec(created_at: u64, name: Seq<char>, fallback: Seq<char>) -> Seq<
    char,
> {
    decimal(created_at as nat) + seq!['-'] + sanitized(name, fallback)
}

/// Builds the directory name of a saved model.
pub fn model_dir_name(created_at: u64, name: &str, fallback: &str) -> (s: String)
    ensures
        s@ == model_dir_name_spec(created_at, name@, fallback@),
{
    let mut v = u64_decimal(created_at);
    v.push('-');
    let clean = sanitize_name(name, fallback);
    let tail = chars_of(clean.as_str());
    let mut i: usize = 0;
    let ghost head = v@;
    while i < tail.len()
        invariant
            i <= tail@.len(),
            v@ == head + tail@.subrange(0, i as int),
        decreases tail@.len() - i,
    {
        v.push(tail[i]);
        i = i + 1;
        assert(v@ =~= head + tail@.subrange(0, i as int));
    }
    assert(tail@.subrange(0, tail@.len() as int) =~= tail@);
    string_from_chars(v.as_slice())
}

// ---------------------------------------------------------------------------
// Newest first
// ---------------------------------------------------------------------------

/// Whether entry `i` comes before entry `j` when listing newest first: a
/// later creation time first, and entries created at the same time in their
/// original order.
pub open spec fn listed_before(created: Seq<u64>, i: int, j: int) -> bool {
    created[i] > created[j] || (created[i] == created[j] && i < j)
}

/// Whether `order` lists every index of `created` exactly once, newest first.
pub open spec fn is_newest_first(created: Seq<u64>, order: Seq<usize>) -> bool {
    &&& order.len() == created.len()
    &&& forall|k: int| 0 <= k < order.len() ==> #[trigger] order[k] < created.len()
    &&& forall|a: int, b: int|
        0 <= a < b < order.len() ==> listed_before(created, order[a] as int, order[b] as int)
    &&& forall|i: int| 0 <= i < created.len() ==> #[trigger] order.contains(i as usize)
}

/// The order in which models are listed: indices of `created` (creation
/// times), newest first, equal times kept in their original order.
pub fn newest_first(created: &[u64]) -> (order: Vec<usize>)
    ensures
        is_newest_first(created@, order@),
{
    let mut order: Vec<usize> = Vec::new();
    let mut i: usize = 0;
    while i < created.len()
        invariant
            i <= created@.len(),
            order@.len() == i,
            forall|k: int| 0 <= k < order@.len() ==> #[trigger] order@[k] < i,
            forall|a: int, b: int|
                0 <= a < b < order@.len() ==> listed_before(
                    created@,
                    order@[a] as int,
                    order@[b] as int,
                ),
            forall|j: int| 0 <= j < i ==> #[trigger] order@.contains(j as usize),
        decreases created@.len() - i,
    {
        let mut p: usize = 0;
        while p < order.len() && created[order[p]] >= created[i]
            invariant
                p <= order@.len(),
                i < created@.len(),
                forall|k: int| 0 <= k < order@.len() ==> #[trigger] order@[k] < i,
                forall|k: int| 0 <= k < p ==> created@[#[trigger] order@[k] as int] >= created@[i as int],
            decreases order@.len() - p,
        {
            p = p + 1;
        }
        let ghost old_order = order@;
        proof {
            assert forall|k: int| p <= k < old_order.len() implies created@[#[trigger] old_order[k] as int]
                < created@[i as int] by {
                if k > p {
                    assert(listed_before(created@, old_order[p as int] as int, old_order[k] as int));
                }
            }
        }
        order.insert(p, i);
        proof {
            assert(order@ == old_order.insert(p as int, i));
            assert forall|k: int| 0 <= k < order@.len() implies #[trigger] order@[k] < i + 1 by {
                if k < p {
                    assert(order@[k] == old_order[k]);
                } else if k > p {
                    assert(order@[k] == old_order[k - 1]);
                }
            }
            assert forall|a: int, b: int| 0 <= a < b < order@.len() implies listed_before(
                created@,
                order@[a] as int,
                order@[b] as int,
            ) by {
                if b < p {
                    assert(order@[a] == old_order[a] && order@[b] == old_order[b]);
                } else if b == p {
                    assert(order@[a] == old_order[a]);
                    assert(created@[old_order[a] as int] >= created@[i as int]);
                } else if a < p {
                    assert(order@[a] == old_order[a] && order@[b] == old_order[b - 1]);
                } else if a == p {
                    assert(order@[b] == old_order[b - 1]);
                    assert(created@[old_order[b - 1] as int] < created@[i as int]);
                } else {
                    assert(order@[a] == old_order[a - 1] && order@[b] == old_order[b - 1]);
                }
            }
            assert forall|j: int| 0 <= j < i + 1 implies #[trigger] order@.contains(j as usize) by {
                if j == i {
                    assert(order@[p as int] == i);
                } else {
                    assert(old_order.contains(j as usize));
                    let k = choose|k: int| 0 <= k < old_order.len() && old_order[k] == j as usize;
                    if k < p {
                        assert(order@[k] == j as usize);
                    } else {
                        assert(order@[k + 1] == j as usize);
                    }
                }
            }
        }
        i = i + 1;
    }
    order
}

} // verus!
