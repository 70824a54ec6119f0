//! Cleaning of downloaded label text: repair of UTF-8 that was read as
//! Windows-1252, filtering to the dictionary's characters, and the dataset
//! name as it goes into a request URL.
use vstd::prelude::*;

use std::collections::HashSet;

use vstd::utf8::{decode_utf8, valid_utf8};

use crate::text::{chars_of, string_from_chars};

verus! {

broadcast use {vstd::string::group_string_axioms, vstd::std_specs::hash::group_hash_axioms};

/// `String::from_utf8`: succeeds exactly when the bytes are valid UTF-8,
/// and then holds the characters that the bytes encode.
#[verifier::external_body]
fn utf8_string(bytes: Vec<u8>) -> (s: Option<String>)
    ensures
        s is Some <==> valid_utf8(bytes@),
        s matches Some(t) ==> t@ == decode_utf8(bytes@),
{
    String::from_utf8(bytes).ok()
}

/// The Windows-1252 byte that a character stands for: the byte itself for
/// code points up to 0xFF, the 1252 code for the 27 characters that 1252
/// places in 0x80..0x9F, nothing otherwise.
pub open spec fn cp1252_of(c: char) -> Option<u8> {
    let u = c as u32;
    if u <= 0xff {
        Some(u as u8)
    } else if u == 0x20ac {
        Some(0x80)
    } else if u == 0x201a {
        Some(0x82)
    } else if u == 0x0192 {
        Some(0x83)
    } else if u == 0x201e {
        Some(0x84)
    } else if u == 0x2026 {
        Some(0x85)
    } else if u == 0x2020 {
        Some(0x86)
    } else if u == 0x2021 {
        Some(0x87)
    } else if u == 0x02c6 {
        Some(0x88)
    } else if u == 0x2030 {
        Some(0x89)
    } else if u == 0x0160 {
        Some(0x8a)
    } else if u == 0x2039 {
        Some(0x8b)
    } else if u == 0x0152 {
        Some(0x8c)
    } else if u == 0x017d {
        Some(0x8e)
    } else if u == 0x2018 {
        Some(0x91)
    } else if u == 0x2019 {
        Some(0x92)
    } else if u == 0x201c {
        Some(0x93)
    } else if u == 0x201d {
        Some(0x94)
    } else if u == 0x2022 {
        Some(0x95)
    } else if u == 0x2013 {
        Some(0x96)
    } else if u == 0x2014 {
        Some(0x97)
    } else if u == 0x02dc {
        Some(0x98)
    } else if u == 0x2122 {
        Some(0x99)
    } else if u == 0x0161 {
        Some(0x9a)
    } else if u == 0x203a {
        Some(0x9b)
    } else if u == 0x0153 {
        Some(0x9c)
    } else if u == 0x017e {
        Some(0x9e)
    } else if u == 0x0178 {
        Some(0x9f)
    } else {
        None
    }
}

/// Windows-1252 byte of a character, if it has one.
pub fn cp1252_byte(c: char) -> (b: Option<u8>)
    ensures
        b == cp1252_of(c),
{
    let u = c as u32;
    if u <= 0xff {
        Some(u as u8)
    } else if u == 0x20ac {
        Some(0x80)
    } else if u == 0x201a {
        Some(0x82)
    } else if u == 0x0192 {
        Some(0x83)
    } else if u == 0x201e {
        Some(0x84)
    } else if u == 0x2026 {
        Some(0x85)
    } else if u == 0x2020 {
        Some(0x86)
    } else if u == 0x2021 {
        Some(0x87)
    } else if u == 0x02c6 {
        Some(0x88)
    } else if u == 0x2030 {
        Some(0x89)
    } else if u == 0x0160 {
        Some(0x8a)
    } else if u == 0x2039 {
        Some(0x8b)
    } else if u == 0x0152 {
        Some(0x8c)
    } else if u == 0x017d {
        Some(0x8e)
    } else if u == 0x2018 {
        Some(0x91)
    } else if u == 0x2019 {
        Some(0x92)
    } else if u == 0x201c {
        Some(0x93)
    } else if u == 0x201d {
        Some(0x94)
    } else if u == 0x2022 {
        Some(0x95)
    } else if u == 0x2013 {
        Some(0x96)
    } else if u == 0x2014 {
        Some(0x97)
    } else if u == 0x02dc {
        Some(0x98)
    } else if u == 0x2122 {
        Some(0x99)
    } else if u == 0x0161 {
        Some(0x9a)
    } else if u == 0x203a {
        Some(0x9b)
    } else if u == 0x0153 {
        Some(0x9c)
    } else if u == 0x017e {
        Some(0x9e)
    } else if u == 0x0178 {
        Some(0x9f)
    } else {
        None
    }
}

/// The Windows-1252 bytes of a text, if every character has one.
pub open spec fn cp1252_bytes(s: Seq<char>) -> Option<Seq<u8>>
    decreases s.len(),
{
    if s.len() == 0 {
        Some(seq![])
    } else {
        match (cp1252_bytes(s.drop_last()), cp1252_of(s.last())) {
            (Some(bytes), Some(b)) => Some(bytes.push(b)),
            _ => None,
        }
    }
}

/// The text that a mis-decoded text stands for: its Windows-1252 bytes read
/// as UTF-8, when both steps succeed.
pub open spec fn mojibake_source(s: Seq<char>) -> Option<Seq<char>> {
    match cp1252_bytes(s) {
        Some(bytes) => if valid_utf8(bytes) {
            Some(decode_utf8(bytes))
        } else {
            None
        },
        None => None,
    }
}

/// Re-reads a text's Windows-1252 bytes as UTF-8.
pub fn cp1252_mojibake_to_utf8(text: &str) -> (r: Option<String>)
    ensures
        match r {
            Some(t) => mojibake_source(text@) == Some(t@),
            None => mojibake_source(text@) is None,
        },
{
    let chars = chars_of(text);
    let mut bytes: Vec<u8> = Vec::new();
    let mut i: usize = 0;
    while i < chars.len()
        invariant
            i <= chars@.len(),
            chars@ == text@,
            cp1252_bytes(chars@.subrange(0, i as int)) == Some(bytes@),
        decreases chars@.len() - i,
    {
        let ghost pre = chars@.subrange(0, i + 1);
        assert(pre.drop_last() =~= chars@.subrange(0, i as int));
        match cp1252_byte(chars[i]) {
            Some(b) => {
                bytes.push(b);
            },
            None => {
                proof {
                    lemma_cp1252_none_extends(chars@, i as int + 1);
                    assert(chars@.subrange(0, chars@.len() as int) =~= chars@);
                }
                return None;
            },
        }
        i = i + 1;
    }
    assert(chars@.subrange(0, chars@.len() as int) =~= chars@);
    utf8_string(bytes)
}

/// Once a prefix has no Windows-1252 bytes, no longer prefix has any.
proof fn lemma_cp1252_none_extends(s: Seq<char>, k: int)
    requires
        0 < k <= s.len(),
        cp1252_bytes(s.subrange(0, k)) is None,
    ensures
        cp1252_bytes(s.subrange(0, s.len() as int)) is None,
    decreases s.len() - k,
{
    if k < s.len() {
        assert(s.subrange(0, k + 1).drop_last() =~= s.subrange(0, k));
        lemma_cp1252_none_extends(s, k + 1);
    }
}

/// Whether a character is a CJK ideograph (the unified ideographs, their
/// extension A, or the compatibility ideographs).
pub open spec fn is_cjk(c: char) -> bool {
    let u = c as u32;
    ||| 0x3400 <= u <= 0x4dbf
    ||| 0x4e00 <= u <= 0x9fff
    ||| 0xf900 <= u <= 0xfaff
}

/// Number of CJK ideographs in a text.
pub open spec fn cjk_count(s: Seq<char>) -> nat
    decreases s.len(),
{
    if s.len() == 0 {
        0
    } else {
        cjk_count(s.drop_last()) + if is_cjk(s.last()) {
            1nat
        } else {
            0nat
        }
    }
}

/// Counts the CJK ideographs of a text.
pub fn cjk_score(text: &str) -> (n: usize)
    ensures
        n == cjk_count(text@),
{
    let chars = chars_of(text);
    let mut n: usize = 0;
    let mut i: usize = 0;
    while i < chars.len()
        invariant
            i <= chars@.len(),
            chars@ == text@,
            n == cjk_count(chars@.subrange(0, i as int)),
            n <= i,
        decreases chars@.len() - i,
    {
        assert(chars@.subrange(0, i + 1).drop_last() =~= chars@.subrange(0, i as int));
        let u = chars[i] as u32;
        if (0x3400 <= u && u <= 0x4dbf) || (0x4e00 <= u && u <= 0x9fff) || (0xf900 <= u && u
            <= 0xfaff) {
            n = n + 1;
        }
        i = i + 1;
    }
    assert(chars@.subrange(0, chars@.len() as int) =~= chars@);
    n
}

/// The repaired form of a text: what it stands for when read back as UTF-8
/// yields more CJK ideographs, the text itself otherwise.
pub open spec fn repaired(s: Seq<char>) -> Seq<char> {
    match mojibake_source(s) {
        Some(r) => if cjk_count(r) > cjk_count(s) {
            r
        } else {
            s
        },
        None => s,
    }
}

/// Undoes UTF-8 text that was decoded as Windows-1252, when that brings
/// back CJK ideographs.
pub fn repair_mojibake(text: &str) -> (s: String)
    ensures
        s@ == repaired(text@),
{
    match cp1252_mojibake_to_utf8(text) {
        Some(r) => {
            if cjk_score(r.as_str()) > cjk_score(text) {
                r
            } else {
                String::from_str(text)
            }
        },
        None => String::from_str(text),
    }
}

/// The characters of `s` that `allowed` holds, in order.
pub open spec fn kept_chars(s: Seq<char>, allowed: Set<u32>) -> Seq<char> {
    s.filter(|c: char| allowed.contains(c as u32))
}

/// Repair never lowers a text's count of CJK ideographs.
pub proof fn lemma_repair_keeps_cjk(s: Seq<char>)
    ensures
        cjk_count(repaired(s)) >= cjk_count(s),
{
}

/// Windows-1252 decoding of one byte: bytes below 0x80 and from 0xA0 on
/// stand for the code point of the same value, 0x80..0x9F for the
/// characters of the code page's table, and 0x81, 0x8D, 0x8F, 0x90 and
/// 0x9D for nothing.
pub open spec fn cp1252_decode(b: u8) -> Option<char> {
    if b < 0x80 || b >= 0xa0 {
        Some(b as char)
    } else if b == 0x80 {
        Some('\u{20ac}')
    } else if b == 0x82 {
        Some('\u{201a}')
    } else if b == 0x83 {
        Some('\u{0192}')
    } else if b == 0x84 {
        Some('\u{201e}')
    } else if b == 0x85 {
        Some('\u{2026}')
    } else if b == 0x86 {
        Some('\u{2020}')
    } else if b == 0x87 {
        Some('\u{2021}')
    } else if b == 0x88 {
        Some('\u{02c6}')
    } else if b == 0x89 {
        Some('\u{2030}')
    } else if b == 0x8a {
        Some('\u{0160}')
    } else if b == 0x8b {
        Some('\u{2039}')
    } else if b == 0x8c {
        Some('\u{0152}')
    } else if b == 0x8e {
        Some('\u{017d}')
    } else if b == 0x91 {
        Some('\u{2018}')
    } else if b == 0x92 {
        Some('\u{2019}')
    } else if b == 0x93 {
        Some('\u{201c}')
    } else if b == 0x94 {
        Some('\u{201d}')
    } else if b == 0x95 {
        Some('\u{2022}')
    } else if b == 0x96 {
        Some('\u{2013}')
    } else if b == 0x97 {
        Some('\u{2014}')
    } else if b == 0x98 {
        Some('\u{02dc}')
    } else if b == 0x99 {
        Some('\u{2122}')
    } else if b == 0x9a {
        Some('\u{0161}')
    } else if b == 0x9b {
        Some('\u{203a}')
    } else if b == 0x9c {
        Some('\u{0153}')
    } else if b == 0x9e {
        Some('\u{017e}')
    } else if b == 0x9f {
        Some('\u{0178}')
    } else {
        None
    }
}

/// The Windows-1252 reading of a byte string, when every byte is defined.
pub open spec fn cp1252_text(bytes: Seq<u8>) -> Option<Seq<char>>
    decreases bytes.len(),
{
    if bytes.len() == 0 {
        Some(seq![])
    } else {
        match (cp1252_text(bytes.drop_last()), cp1252_decode(bytes.last())) {
            (Some(t), Some(c)) => Some(t.push(c)),
            _ => None,
        }
    }
}

/// Every byte that Windows-1252 defines comes back from the character it
/// decodes to.
pub proof fn lemma_cp1252_round_trip(b: u8)
    ensures
        cp1252_decode(b) matches Some(c) ==> cp1252_of(c) == Some(b),
{
}

/// A Windows-1252 reading gives its bytes back, and holds no CJK ideograph.
proof fn lemma_cp1252_text_bytes(bytes: Seq<u8>, t: Seq<char>)
    requires
        cp1252_text(bytes) == Some(t),
    ensures
        cp1252_bytes(t) == Some(bytes),
        cjk_count(t) == 0,
    decreases bytes.len(),
{
    if bytes.len() > 0 {
        let prev = cp1252_text(bytes.drop_last()).unwrap();
        let c = cp1252_decode(bytes.last()).unwrap();
        lemma_cp1252_text_bytes(bytes.drop_last(), prev);
        lemma_cp1252_round_trip(bytes.last());
        assert(t == prev.push(c));
        assert(t.drop_last() =~= prev);
        assert(bytes.drop_last().push(bytes.last()) =~= bytes);
    }
}

/// Repairing the Windows-1252 reading of valid UTF-8 text gives the text
/// back, whenever that text holds a CJK ideograph (and every byte of its
/// encoding is one that Windows-1252 defines).
pub proof fn lemma_repair_undoes_cp1252_reading(bytes: Seq<u8>, t: Seq<char>)
    requires
        valid_utf8(bytes),
        cp1252_text(bytes) == Some(t),
        cjk_count(decode_utf8(bytes)) > 0,
    ensures
        mojibake_source(t) == Some(decode_utf8(bytes)),
        repaired(t) == decode_utf8(bytes),
{
    lemma_cp1252_text_bytes(bytes, t);
}

/// Every character of a normalized label is a dictionary character, and the
/// label is no longer than the repaired text.
pub proof fn lemma_kept_chars_allowed(s: Seq<char>, allowed: Set<u32>)
    ensures
        forall|i: int|
            0 <= i < kept_chars(s, allowed).len() ==> allowed.contains(
                (#[trigger] kept_chars(s, allowed)[i]) as u32,
            ),
        kept_chars(s, allowed).len() <= s.len(),
{
    broadcast use vstd::seq_lib::group_filter_ensures;

    let pred = |c: char| allowed.contains(c as u32);
    assert forall|i: int| 0 <= i < kept_chars(s, allowed).len() implies allowed.contains(
        (#[trigger] kept_chars(s, allowed)[i]) as u32,
    ) by {
        assert(pred(s.filter(pred)[i]));
    }
}

/// Repairs a label and keeps the characters of the dictionary; a label left
/// with fewer than `min_text_chars` characters is dropped.
pub fn normalize_label(text: &str, allowed_chars: &HashSet<u32>, min_text_chars: usize) -> (r:
    Option<String>)
    ensures
        match r {
            Some(label) => label@ == kept_chars(repaired(text@), allowed_chars@)
                && label@.len() >= min_text_chars,
            None => kept_chars(repaired(text@), allowed_chars@).len() < min_text_chars,
        },
{
    let fixed = repair_mojibake(text);
    let chars = chars_of(fixed.as_str());
    let ghost allowed = allowed_chars@;
    let mut kept: Vec<char> = Vec::new();
    let mut i: usize = 0;
    while i < chars.len()
        invariant
            i <= chars@.len(),
            chars@ == repaired(text@),
            allowed == allowed_chars@,
            kept@ == kept_chars(chars@.subrange(0, i as int), allowed),
        decreases chars@.len() - i,
    {
        let ghost pre = chars@.subrange(0, i + 1);
        assert(pre.drop_last() =~= chars@.subrange(0, i as int));
        reveal_with_fuel(Seq::filter, 1);
        if allowed_chars.contains(&(chars[i] as u32)) {
            kept.push(chars[i]);
        }
        i = i + 1;
        assert(kept@ =~= kept_chars(chars@.subrange(0, i as int), allowed));
    }
    assert(chars@.subrange(0, chars@.len() as int) =~= chars@);
    if kept.len() >= min_text_chars {
        Some(string_from_chars(kept.as_slice()))
    } else {
        None
    }
}

/// A dataset name as it goes into the rows URL: every `/` written `%2F`.
pub open spec fn url_dataset(s: Seq<char>) -> Seq<char>
    decreases s.len(),
{
    if s.len() == 0 {
        seq![]
    } else {
        url_dataset(s.drop_last()) + if s.last() == '/' {
            seq!['%', '2', 'F']
        } else {
            seq![s.last()]
        }
    }
}

/// An escaped dataset name holds no `/`.
pub proof fn lemma_url_dataset_has_no_slash(s: Seq<char>)
    ensures
        !url_dataset(s).contains('/'),
    decreases s.len(),
{
    if s.len() > 0 {
        lemma_url_dataset_has_no_slash(s.drop_last());
        let tail = if s.last() == '/' {
            seq!['%', '2', 'F']
        } else {
            seq![s.last()]
        };
        assert(!tail.contains('/')) by {
            if s.last() == '/' {
                assert(tail[0] != '/' && tail[1] != '/' && tail[2] != '/');
            }
        }
        let whole = url_dataset(s.drop_last()) + tail;
        assert forall|i: int| 0 <= i < whole.len() implies whole[i] != '/' by {
            if i < url_dataset(s.drop_last()).len() {
                assert(whole[i] == url_dataset(s.drop_last())[i]);
            } else {
                assert(whole[i] == tail[i - url_dataset(s.drop_last()).len()]);
            }
        }
    }
}

/// Escapes the `/` of a dataset name for the rows URL.
pub fn encode_dataset(dataset: &str) -> (s: String)
    ensures
        s@ == url_dataset(dataset@),
{
    let chars = chars_of(dataset);
    let mut out: Vec<char> = Vec::new();
    let mut i: usize = 0;
    while i < chars.len()
        invariant
            i <= chars@.len(),
            chars@ == dataset@,
            out@ == url_dataset(chars@.subrange(0, i as int)),
        decreases chars@.len() - i,
    {
        assert(chars@.subrange(0, i + 1).drop_last() =~= chars@.subrange(0, i as int));
        if chars[i] == '/' {
            out.push('%');
            out.push('2');
            out.push('F');
        } else {
            out.push(chars[i]);
        }
        i = i + 1;
        assert(out@ =~= url_dataset(chars@.subrange(0, i as int)));
    }
    assert(chars@.subrange(0, chars@.len() as int) =~= chars@);
    string_from_chars(out.as_slice())
}

} // verus!
