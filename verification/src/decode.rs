use vstd::prelude::*;

use crate::text::{chars_of, push_char, string_from_chars};

verus! {

broadcast use vstd::string::group_string_axioms;

// ---------------------------------------------------------------------------
// Dictionary format
// ---------------------------------------------------------------------------

/// Removes one trailing carriage return, if there is one.
pub open spec fn strip_cr(s: Seq<char>) -> Seq<char> {
    if s.len() > 0 && s.last() == '\r' {
        s.drop_last()
    } else {
        s
    }
}

/// Scans the first `k` characters of a dictionary file. Returns the non-empty
/// entries of the lines finished so far (each line loses its `'\n'` and up to
/// two trailing `'\r'`) and the characters of the line still open.
pub open spec fn scan_dict(s: Seq<char>, k: int) -> (Seq<Seq<char>>, Seq<char>)
    decreases k,
{
    if k <= 0 {
        (seq![], seq![])
    } else {
        let (entries, current) = scan_dict(s, k - 1);
        if s[k - 1] == '\n' {
            let line = strip_cr(strip_cr(current));
            (
                if line.len() > 0 {
                    entries.push(line)
                } else {
                    entries
                },
                seq![],
            )
        } else {
            (entries, current.push(s[k - 1]))
        }
    }
}

/// The non-empty entries of a dictionary file, one per line; the last line
/// needs no terminating newline and loses one trailing `'\r'`.
pub open spec fn dict_entries(s: Seq<char>) -> Seq<Seq<char>> {
    let (entries, current) = scan_dict(s, s.len() as int);
    let last = strip_cr(current);
    if last.len() > 0 {
        entries.push(last)
    } else {
        entries
    }
}

/// The ideographic space U+3000 that official dictionaries use for "space".
pub open spec fn ideographic_space() -> Seq<char> {
    seq!['\u{3000}']
}

/// An entry holding a single ASCII space.
pub open spec fn ascii_space() -> Seq<char> {
    seq![' ']
}

/// When the dictionary has no ASCII-space entry, an entry holding only the
/// ideographic space stands for the ASCII space; every other entry is kept.
pub open spec fn normalize_entries(entries: Seq<Seq<char>>) -> Seq<Seq<char>> {
    let has_ascii_space = entries.contains(ascii_space());
    entries.map_values(
        |e: Seq<char>|
            if !has_ascii_space && e == ideographic_space() {
                ascii_space()
            } else {
                e
            },
    )
}

/// The class token at index 0, reserved for the CTC blank.
pub open spec fn blank_token() -> Seq<char> {
    seq!['<', 'b', 'l', 'a', 'n', 'k', '>']
}

/// The class table that a dictionary file yields: the blank, then one class
/// per normalized entry.
pub open spec fn dict_classes(content: Seq<char>) -> Seq<Seq<char>> {
    seq![blank_token()] + normalize_entries(dict_entries(content))
}

/// Scanning `k` characters yields at most `k` entries and characters.
proof fn lemma_scan_dict_count(s: Seq<char>, k: int)
    requires
        0 <= k <= s.len(),
    ensures
        scan_dict(s, k).0.len() + scan_dict(s, k).1.len() <= k,
    decreases k,
{
    if k > 0 {
        lemma_scan_dict_count(s, k - 1);
    }
}

/// A dictionary has at most as many entries as characters.
pub proof fn lemma_dict_entries_count(s: Seq<char>)
    ensures
        dict_entries(s).len() <= s.len(),
{
    lemma_scan_dict_count(s, s.len() as int);
}

/// Reading a dictionary yields one class per non-empty line plus the blank:
/// reading the ideographic space as an ASCII space never changes the count.
pub proof fn lemma_dict_class_count(content: Seq<char>)
    ensures
        dict_classes(content).len() == dict_entries(content).len() + 1,
        dict_classes(content)[0] == blank_token(),
{
}

/// The characters of the built-in fallback alphabet, in class order.
pub open spec fn builtin_alphabet() -> Seq<char> {
    seq![
        '0', '1', '2', '3', '4', '5', '6', '7', '8', '9',
        'a', 'b', 'c', 'd', 'e', 'f', 'g', 'h', 'i', 'j', 'k', 'l', 'm',
        'n', 'o', 'p', 'q', 'r', 's', 't', 'u', 'v', 'w', 'x', 'y', 'z',
        'A', 'B', 'C', 'D', 'E', 'F', 'G', 'H', 'I', 'J', 'K', 'L', 'M',
        'N', 'O', 'P', 'Q', 'R', 'S', 'T', 'U', 'V', 'W', 'X', 'Y', 'Z',
        '.', ',', ':', ';', '!', '?', '+', '-', '*', '/', '=', '_', '(', ')', '[', ']', '{', '}',
        '<', '>', '@', '#', '%', '&', '\'', '"', ' ',
    ]
}

/// The class table of the built-in fallback dictionary.
pub open spec fn builtin_classes() -> Seq<Seq<char>> {
    seq![blank_token()] + builtin_alphabet().map_values(|c: char| seq![c])
}

// ---------------------------------------------------------------------------
// Greedy CTC decoding over best-path class indices
// ---------------------------------------------------------------------------

/// Time step `t` of a best path emits a character: it is not the blank, it
/// does not repeat the class of the previous step, and the class is in the
/// dictionary.
pub open spec fn emits(best: Seq<usize>, num_classes: nat, t: int) -> bool {
    &&& best[t] != 0
    &&& (t == 0 || best[t] != best[t - 1])
    &&& (best[t] as nat) < num_classes
}

/// The time steps among the first `k` that emit a character, in order.
pub open spec fn emitted_steps(best: Seq<usize>, num_classes: nat, k: int) -> Seq<usize>
    decreases k,
{
    if k <= 0 {
        seq![]
    } else if emits(best, num_classes, k - 1) {
        emitted_steps(best, num_classes, k - 1).push((k - 1) as usize)
    } else {
        emitted_steps(best, num_classes, k - 1)
    }
}

/// The text of the first `k` steps of a best path: the class strings of the
/// emitting steps, concatenated.
pub open spec fn decoded_text(classes: Seq<Seq<char>>, best: Seq<usize>, k: int) -> Seq<char>
    decreases k,
{
    if k <= 0 {
        seq![]
    } else if emits(best, classes.len(), k - 1) {
        decoded_text(classes, best, k - 1) + classes[best[k - 1] as int]
    } else {
        decoded_text(classes, best, k - 1)
    }
}

/// The class strings of the given time steps, concatenated.
pub open spec fn text_of_steps(classes: Seq<Seq<char>>, best: Seq<usize>, steps: Seq<usize>) -> Seq<
    char,
>
    decreases steps.len(),
{
    if steps.len() == 0 {
        seq![]
    } else {
        text_of_steps(classes, best, steps.drop_last()) + classes[best[steps.last() as int] as int]
    }
}

/// The two results of decoding agree: the text is the class strings of the
/// emitting steps, in order, and every emitting step carries a class of the
/// dictionary other than the blank.
pub proof fn lemma_decoded_text_follows_steps(classes: Seq<Seq<char>>, best: Seq<usize>, k: int)
    requires
        0 <= k <= best.len(),
        best.len() <= usize::MAX,
    ensures
        decoded_text(classes, best, k) == text_of_steps(
            classes,
            best,
            emitted_steps(best, classes.len(), k),
        ),
        forall|i: int|
            0 <= i < emitted_steps(best, classes.len(), k).len() ==> {
                let t = #[trigger] emitted_steps(best, classes.len(), k)[i] as int;
                &&& 0 <= t < k
                &&& best[t] != 0
                &&& best[t] < classes.len()
            },
    decreases k,
{
    if k > 0 {
        lemma_decoded_text_follows_steps(classes, best, k - 1);
        let prev = emitted_steps(best, classes.len(), k - 1);
        if emits(best, classes.len(), k - 1) {
            let cur = emitted_steps(best, classes.len(), k);
            assert(cur.drop_last() =~= prev);
            assert forall|i: int| 0 <= i < cur.len() implies {
                let t = #[trigger] cur[i] as int;
                &&& 0 <= t < k
                &&& best[t] != 0
                &&& best[t] < classes.len()
            } by {
                if i < prev.len() {
                    assert(cur[i] == prev[i]);
                }
            }
        }
    }
}

/// Greedy CTC decoder: maps class indices to strings, class 0 being the blank.
pub struct CtcDecoder {
    char_dict: Vec<String>,
}

impl View for CtcDecoder {
    type V = Seq<Seq<char>>;

    closed spec fn view(&self) -> Seq<Seq<char>> {
        self.char_dict@.map_values(|s: String| s@)
    }
}

impl CtcDecoder {
    /// Builds the decoder from the text of a PaddleOCR dictionary file: one
    /// entry per non-empty line, index 0 reserved for the blank. When no
    /// entry is an ASCII space, an entry holding only U+3000 is read as one,
    /// so the class count never changes.
    pub fn from_dict_content(content: &str) -> (decoder: Self)
        ensures
            decoder@ == dict_classes(content@),
    {
        let chars = chars_of(content);
        let mut entries: Vec<Vec<char>> = Vec::new();
        let mut current: Vec<char> = Vec::new();
        let mut i: usize = 0;
        while i < chars.len()
            invariant
                i <= chars@.len(),
                chars@ == content@,
                scan_dict(content@, i as int) == (
                    entries@.map_values(|e: Vec<char>| e@),
                    current@,
                ),
            decreases chars@.len() - i,
        {
            let c = chars[i];
            let ghost prev_entries = entries@;
            if c == '\n' {
                strip_trailing_cr(&mut current);
                strip_trailing_cr(&mut current);
                if current.len() > 0 {
                    entries.push(current);
                    assert(entries@.map_values(|e: Vec<char>| e@) == prev_entries.map_values(
                        |e: Vec<char>| e@,
                    ).push(current@));
                }
                current = Vec::new();
            } else {
                current.push(c);
            }
            i = i + 1;
        }
        strip_trailing_cr(&mut current);
        if current.len() > 0 {
            let ghost prev_entries = entries@;
            entries.push(current);
            assert(entries@.map_values(|e: Vec<char>| e@) == prev_entries.map_values(
                |e: Vec<char>| e@,
            ).push(current@));
        }
        let ghost views = entries@.map_values(|e: Vec<char>| e@);
        assert(views == dict_entries(content@));

        let has_ascii_space = contains_ascii_space(&entries);
        let mut char_dict: Vec<String> = Vec::new();
        char_dict.push(string_from_chars(&['<', 'b', 'l', 'a', 'n', 'k', '>']));
        let mut k: usize = 0;
        while k < entries.len()
            invariant
                k <= entries@.len(),
                views == entries@.map_values(|e: Vec<char>| e@),
                has_ascii_space == views.contains(ascii_space()),
                char_dict@.len() == k + 1,
                char_dict@[0]@ == blank_token(),
                forall|j: int|
                    0 <= j < k ==> (#[trigger] char_dict@[j + 1])@ == normalize_entries(views)[j],
            decreases entries@.len() - k,
        {
            let entry = &entries[k];
            let normalized = if !has_ascii_space && entry.len() == 1 && entry[0] == '\u{3000}' {
                assert(entry@ =~= ideographic_space());
                string_from_chars(&[' '])
            } else {
                proof {
                    if !has_ascii_space && entry@ == ideographic_space() {
                        assert(entry@.len() == 1);
                    }
                }
                string_from_chars(entry.as_slice())
            };
            char_dict.push(normalized);
            k = k + 1;
        }
        let decoder = CtcDecoder { char_dict };
        assert forall|j: int| 0 <= j < decoder@.len() implies #[trigger] decoder@[j]
            == dict_classes(content@)[j] by {
            if j > 0 {
                assert(char_dict@[(j - 1) + 1]@ == normalize_entries(views)[j - 1]);
            }
        }
        assert(decoder@ =~= dict_classes(content@));
        decoder
    }

    /// Uses the dictionary text when it could be read, and the built-in
    /// ASCII alphabet otherwise.
    pub fn from_dict_or_builtin(content: Option<&str>) -> (decoder: Self)
        ensures
            content matches Some(c) ==> decoder@ == dict_classes(c@),
            content is None ==> decoder@ == builtin_classes(),
    {
        match content {
            Some(c) => Self::from_dict_content(c),
            None => Self::builtin_ascii(),
        }
    }

    /// Minimal built-in dictionary, so that decoding works without a
    /// PaddleOCR dictionary file.
    pub fn builtin_ascii() -> (decoder: Self)
        ensures
            decoder@ == builtin_classes(),
    {
        let alphabet: [char; 89] = [
            '0', '1', '2', '3', '4', '5', '6', '7', '8', '9',
            'a', 'b', 'c', 'd', 'e', 'f', 'g', 'h', 'i', 'j', 'k', 'l', 'm',
            'n', 'o', 'p', 'q', 'r', 's', 't', 'u', 'v', 'w', 'x', 'y', 'z',
            'A', 'B', 'C', 'D', 'E', 'F', 'G', 'H', 'I', 'J', 'K', 'L', 'M',
            'N', 'O', 'P', 'Q', 'R', 'S', 'T', 'U', 'V', 'W', 'X', 'Y', 'Z',
            '.', ',', ':', ';', '!', '?', '+', '-', '*', '/', '=', '_', '(', ')', '[', ']', '{', '}',
            '<', '>', '@', '#', '%', '&', '\'', '"', ' ',
        ];
        assert(alphabet@ =~= builtin_alphabet());
        let mut char_dict: Vec<String> = Vec::new();
        char_dict.push(string_from_chars(&['<', 'b', 'l', 'a', 'n', 'k', '>']));
        let mut k: usize = 0;
        while k < 89
            invariant
                k <= 89,
                alphabet@ == builtin_alphabet(),
                char_dict@.len() == k + 1,
                char_dict@[0]@ == blank_token(),
                forall|j: int| 0 <= j < k ==> (#[trigger] char_dict@[j + 1])@ == seq![alphabet@[j]],
            decreases 89 - k,
        {
            char_dict.push(string_from_chars(&[alphabet[k]]));
            k = k + 1;
        }
        let decoder = CtcDecoder { char_dict };
        assert forall|j: int| 0 <= j < decoder@.len() implies #[trigger] decoder@[j]
            == builtin_classes()[j] by {
            if j > 0 {
                assert(char_dict@[(j - 1) + 1]@ == seq![alphabet@[j - 1]]);
            }
        }
        assert(decoder@ =~= builtin_classes());
        decoder
    }

    /// Builds a decoder from an explicit class table (index 0 is the blank).
    pub fn from_classes(char_dict: Vec<String>) -> (decoder: Self)
        ensures
            decoder@ == char_dict@.map_values(|s: String| s@),
    {
        CtcDecoder { char_dict }
    }

    /// The class table, index 0 being the blank.
    pub fn classes(&self) -> (classes: &Vec<String>)
        ensures
            classes@.map_values(|s: String| s@) == self@,
    {
        &self.char_dict
    }

    /// Dictionary size, blank included.
    pub fn num_classes(&self) -> (n: usize)
        ensures
            n == self@.len(),
    {
        self.char_dict.len()
    }

    /// Greedy CTC collapse of a best path (the most likely class at each time
    /// step): skips blanks, repeats of the previous step's class and classes
    /// outside the dictionary. Returns the text and the emitting time steps.
    pub fn decode_best_path(&self, best: &[usize]) -> (out: (String, Vec<usize>))
        ensures
            out.0@ == decoded_text(self@, best@, best@.len() as int),
            out.1@ == emitted_steps(best@, self@.len(), best@.len() as int),
    {
        let mut text = String::new();
        let mut steps: Vec<usize> = Vec::new();
        let mut prev_idx: usize = 0;
        let mut t: usize = 0;
        while t < best.len()
            invariant
                t <= best@.len(),
                t > 0 ==> prev_idx == best@[t - 1],
                t == 0 ==> prev_idx == 0,
                text@ == decoded_text(self@, best@, t as int),
                steps@ == emitted_steps(best@, self@.len(), t as int),
            decreases best@.len() - t,
        {
            let idx = best[t];
            if idx != 0 && idx != prev_idx && idx < self.char_dict.len() {
                text.append(self.char_dict[idx].as_str());
                steps.push(t);
            }
            prev_idx = idx;
            t = t + 1;
        }
        (text, steps)
    }
}

/// Removes one trailing `'\r'`, if present.
fn strip_trailing_cr(v: &mut Vec<char>)
    ensures
        final(v)@ == strip_cr(old(v)@),
{
    if v.len() > 0 && v[v.len() - 1] == '\r' {
        v.pop();
    }
}

/// Whether some entry is exactly one ASCII space.
fn contains_ascii_space(entries: &Vec<Vec<char>>) -> (b: bool)
    ensures
        b == entries@.map_values(|e: Vec<char>| e@).contains(ascii_space()),
{
    let ghost views = entries@.map_values(|e: Vec<char>| e@);
    let mut k: usize = 0;
    while k < entries.len()
        invariant
            k <= entries@.len(),
            views == entries@.map_values(|e: Vec<char>| e@),
            forall|j: int| 0 <= j < k ==> views[j] != ascii_space(),
        decreases entries@.len() - k,
    {
        if entries[k].len() == 1 && entries[k][0] == ' ' {
            assert(views[k as int] =~= ascii_space());
            return true;
        }
        proof {
            if views[k as int] == ascii_space() {
                assert(views[k as int].len() == 1);
            }
        }
        k = k + 1;
    }
    false
}

} // verus!
