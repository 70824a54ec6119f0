use vstd::prelude::*;

use std::collections::{HashMap, HashSet};

use crate::decode::{dict_classes, dict_entries, normalize_entries};
use crate::naming::u64_decimal;
use crate::text::{
    chars_of, copy_range, decimal, is_ws, leading_ws, string_from_chars, trailing_ws, trim,
    trim_chars,
};

verus! {

broadcast use {vstd::string::group_string_axioms, vstd::std_specs::hash::group_hash_axioms};

// ---------------------------------------------------------------------------
// Character map
// ---------------------------------------------------------------------------

/// Character-to-class map of the first `k` dictionary entries: the first
/// character of entry `i` maps to class `i + 1` (class 0 is the blank); a
/// later entry with the same first character wins.
pub open spec fn char_map_prefix(entries: Seq<Seq<char>>, k: int) -> Map<u32, usize>
    decreases k,
{
    if k <= 0 {
        Map::empty()
    } else {
        let prev = char_map_prefix(entries, k - 1);
        if entries[k - 1].len() > 0 {
            prev.insert(entries[k - 1][0] as u32, k as usize)
        } else {
            prev
        }
    }
}

/// The character map of a dictionary file, keyed by code point.
pub open spec fn dict_char_map(content: Seq<char>) -> Map<u32, usize> {
    let entries = normalize_entries(dict_entries(content));
    char_map_prefix(entries, entries.len() as int)
}

/// Every key of the map of the first `k` entries points at one of those
/// entries, and that entry starts with the key's character.
proof fn lemma_char_map_prefix(entries: Seq<Seq<char>>, k: int)
    requires
        0 <= k <= entries.len(),
        k <= usize::MAX,
    ensures
        forall|key: u32|
            #[trigger] char_map_prefix(entries, k).contains_key(key) ==> {
                let i = char_map_prefix(entries, k)[key] as int;
                &&& 1 <= i <= k
                &&& entries[i - 1].len() > 0
                &&& entries[i - 1][0] as u32 == key
            },
    decreases k,
{
    if k > 0 {
        lemma_char_map_prefix(entries, k - 1);
        let prev = char_map_prefix(entries, k - 1);
        let cur = char_map_prefix(entries, k);
        assert forall|key: u32| #[trigger] cur.contains_key(key) implies {
            let i = cur[key] as int;
            &&& 1 <= i <= k
            &&& entries[i - 1].len() > 0
            &&& entries[i - 1][0] as u32 == key
        } by {
            if entries[k - 1].len() > 0 && key == entries[k - 1][0] as u32 {
                assert(cur[key] == k as usize);
            } else {
                assert(prev.contains_key(key));
                assert(cur[key] == prev[key]);
            }
        }
    }
}

/// The character map and the decoder read a dictionary alike: each
/// character of the map is sent to a class of the decoder (never the blank)
/// whose entry starts with that character.
pub proof fn lemma_char_map_matches_decoder(content: Seq<char>)
    requires
        content.len() <= usize::MAX,
    ensures
        forall|key: u32|
            #[trigger] dict_char_map(content).contains_key(key) ==> {
                let i = dict_char_map(content)[key] as int;
                &&& 1 <= i < dict_classes(content).len()
                &&& dict_classes(content)[i].len() > 0
                &&& dict_classes(content)[i][0] as u32 == key
            },
{
    let entries = normalize_entries(dict_entries(content));
    crate::decode::lemma_dict_entries_count(content);
    lemma_char_map_prefix(entries, entries.len() as int);
    assert forall|key: u32| #[trigger] dict_char_map(content).contains_key(key) implies {
        let i = dict_char_map(content)[key] as int;
        &&& 1 <= i < dict_classes(content).len()
        &&& dict_classes(content)[i].len() > 0
        &&& dict_classes(content)[i][0] as u32 == key
    } by {
        let i = dict_char_map(content)[key] as int;
        assert(char_map_prefix(entries, entries.len() as int).contains_key(key));
        assert(dict_classes(content)[i] == entries[i - 1]);
    }
}

/// Builds the character-to-class map from the text of a dictionary file
/// (same line rules as the decoder's dictionary), keyed by code point.
pub fn build_char_map(content: &str) -> (map: HashMap<u32, usize>)
    ensures
        map@ == dict_char_map(content@),
{
    let decoder = crate::decode::CtcDecoder::from_dict_content(content);
    let classes = decoder.classes();
    let ghost entries = normalize_entries(dict_entries(content@));
    let ghost views = classes@.map_values(|s: String| s@);
    assert(views.len() == classes@.len());
    assert forall|j: int| 0 <= j < entries.len() implies (#[trigger] classes@[j + 1])@ == entries[j] by {
        assert(views[j + 1] == classes@[j + 1]@);
        assert(dict_classes(content@)[j + 1] == entries[j]);
    }
    let mut map: HashMap<u32, usize> = HashMap::new();
    let mut i: usize = 1;
    while i < classes.len()
        invariant
            1 <= i <= classes@.len(),
            classes@.len() == entries.len() + 1,
            forall|j: int| 0 <= j < entries.len() ==> (#[trigger] classes@[j + 1])@ == entries[j],
            map@ == char_map_prefix(entries, i - 1),
        decreases classes@.len() - i,
    {
        let entry = chars_of(classes[i].as_str());
        assert(classes@[(i - 1) + 1]@ == entries[i - 1]);
        assert(entry@ == entries[i - 1]);
        if entry.len() > 0 {
            map.insert(entry[0] as u32, i);
        }
        i = i + 1;
    }
    map
}

/// Class indices of the characters of a label that the map knows, in order;
/// unknown characters are skipped.
pub open spec fn encoded_label(label: Seq<char>, map: Map<u32, usize>) -> Seq<usize>
    decreases label.len(),
{
    if label.len() == 0 {
        seq![]
    } else {
        let prev = encoded_label(label.drop_last(), map);
        let key = label.last() as u32;
        if map.contains_key(key) {
            prev.push(map[key])
        } else {
            prev
        }
    }
}

/// Encodes a label as class indices, skipping characters outside the map.
pub fn encode_label(label: &str, map: &HashMap<u32, usize>) -> (indices: Vec<usize>)
    ensures
        indices@ == encoded_label(label@, map@),
{
    let chars = chars_of(label);
    let mut out: Vec<usize> = Vec::new();
    let mut i: usize = 0;
    while i < chars.len()
        invariant
            i <= chars@.len(),
            chars@ == label@,
            out@ == encoded_label(chars@.subrange(0, i as int), map@),
        decreases chars@.len() - i,
    {
        assert(chars@.subrange(0, i + 1).drop_last() =~= chars@.subrange(0, i as int));
        match map.get(&(chars[i] as u32)) {
            Some(idx) => {
                out.push(*idx);
            },
            None => {},
        }
        i = i + 1;
    }
    assert(chars@.subrange(0, chars@.len() as int) =~= chars@);
    out
}

// ---------------------------------------------------------------------------
// labels.txt
// ---------------------------------------------------------------------------

/// The lines of a text: the pieces between newline characters.
pub open spec fn split_lines(s: Seq<char>, k: int) -> (Seq<Seq<char>>, Seq<char>)
    decreases k,
{
    if k <= 0 {
        (seq![], seq![])
    } else {
        let (done, current) = split_lines(s, k - 1);
        if s[k - 1] == '\n' {
            (done.push(current), seq![])
        } else {
            (done, current.push(s[k - 1]))
        }
    }
}

/// All lines of a text, the piece after the last newline included.
pub open spec fn all_lines(s: Seq<char>) -> Seq<Seq<char>> {
    let (done, current) = split_lines(s, s.len() as int);
    done.push(current)
}

/// Index of the first tab of a line, if any.
pub open spec fn first_tab(s: Seq<char>) -> Option<int> {
    if exists|i: int| 0 <= i < s.len() && s[i] == '\t' {
        Some(choose|i: int| 0 <= i < s.len() && s[i] == '\t' && forall|j: int| 0 <= j < i ==> s[j] != '\t')
    } else {
        None
    }
}

/// A raw sample: an image and its label text.
pub struct OcrSample {
    /// Image file name, relative to the dataset's `images` directory.
    pub image_path: String,
    /// Label text.
    pub label: String,
}

/// One parsed line of a `labels.txt`.
pub struct OcrItem {
    /// Image file name, relative to the dataset's `images` directory.
    pub image_path: String,
    /// The label's characters as dictionary classes.
    pub label_indices: Vec<usize>,
    /// Label text.
    pub label_text: String,
}

/// A trimmed, non-empty line is split at its first tab into image name and
/// label; lines without a tab are not records.
pub open spec fn record_parts(line: Seq<char>) -> Option<(Seq<char>, Seq<char>)> {
    let t = trim(line);
    if t.len() == 0 {
        None
    } else {
        match first_tab(t) {
            Some(i) => Some((t.subrange(0, i), t.subrange(i + 1, t.len() as int))),
            None => None,
        }
    }
}

/// One line of a `labels.txt` as it is written: image name, a tab, label
/// and a newline.
pub open spec fn label_line_text(name: Seq<char>, label: Seq<char>) -> Seq<char> {
    name + seq!['\t'] + label + seq!['\n']
}

/// Writes the `labels.txt` line of one sample.
pub fn label_line(name: &str, label: &str) -> (line: String)
    ensures
        line@ == label_line_text(name@, label@),
{
    let mut line = String::from_str(name);
    line.append("\t");
    line.append(label);
    line.append("\n");
    proof {
        reveal_strlit("\t");
        reveal_strlit("\n");
        assert(line@ =~= label_line_text(name@, label@));
    }
    line
}

/// Before the first newline of a text, the lines read so far are none and
/// the current line is everything scanned.
proof fn lemma_split_before_newline(s: Seq<char>, k: int)
    requires
        0 <= k <= s.len(),
        forall|i: int| 0 <= i < k ==> s[i] != '\n',
    ensures
        split_lines(s, k) == (Seq::<Seq<char>>::empty(), s.subrange(0, k)),
    decreases k,
{
    if k > 0 {
        lemma_split_before_newline(s, k - 1);
        assert(s.subrange(0, k - 1).push(s[k - 1]) =~= s.subrange(0, k));
    }
}

/// A `labels.txt` line written for a sample reads back as that sample: the
/// text holds exactly that one line (and the empty piece after its newline),
/// and the line splits into the same image name and label. This holds when
/// the name has no tab or newline and does not start with whitespace, and
/// the label has no newline and does not end with whitespace, as the
/// reader trims each line before splitting it at its first tab.
pub proof fn lemma_label_line_reads_back(name: Seq<char>, label: Seq<char>)
    requires
        name.len() > 0,
        !is_ws(name[0]),
        forall|i: int| 0 <= i < name.len() ==> name[i] != '\t' && name[i] != '\n',
        label.len() > 0,
        !is_ws(label.last()),
        forall|i: int| 0 <= i < label.len() ==> label[i] != '\n',
    ensures
        all_lines(label_line_text(name, label)) == seq![name + seq!['\t'] + label, Seq::<char>::empty()],
        record_parts(name + seq!['\t'] + label) == Some((name, label)),
{
    let line = name + seq!['\t'] + label;
    let text = label_line_text(name, label);
    assert(text =~= line.push('\n'));
    assert forall|i: int| 0 <= i < line.len() implies text[i] != '\n' by {
        if i < name.len() {
            assert(text[i] == name[i]);
        } else if i > name.len() {
            assert(text[i] == label[i - name.len() - 1]);
        }
    }
    lemma_split_before_newline(text, line.len() as int);
    assert(text.subrange(0, line.len() as int) =~= line);
    assert(all_lines(text) =~= seq![line, Seq::<char>::empty()]);

    assert(line[0] == name[0]);
    assert(leading_ws(line) == 0);
    assert(line.last() == label.last());
    assert(trailing_ws(line) == 0);
    assert(trim(line) =~= line);
    let n = name.len() as int;
    assert(line[n] == '\t');
    assert(exists|i: int| 0 <= i < line.len() && line[i] == '\t');
    let i = choose|i: int|
        0 <= i < line.len() && line[i] == '\t' && forall|j: int| 0 <= j < i ==> line[j] != '\t';
    assert(0 <= n < line.len() && line[n] == '\t' && forall|j: int| 0 <= j < n ==> line[j] != '\t')
        by {
        assert forall|j: int| 0 <= j < n implies line[j] != '\t' by {
            assert(line[j] == name[j]);
        }
    }
    assert(i == n);
    assert(first_tab(line) == Some(n));
    assert(line.subrange(0, n) =~= name);
    assert(line.subrange(n + 1, line.len() as int) =~= label);
}

/// Name of the image file of a dataset sample: the split, `_`, the row
/// index, for a region of the row `_` and the region's index, and `.jpg`.
pub open spec fn sample_file_name_text(split: Seq<char>, row: nat, region: Option<nat>) -> Seq<
    char,
> {
    let stem = split + seq!['_'] + decimal(row);
    let stem = match region {
        Some(r) => stem + seq!['_'] + decimal(r),
        None => stem,
    };
    stem + seq!['.', 'j', 'p', 'g']
}

/// Appends `tail` to `v`.
fn extend_chars(v: &mut Vec<char>, tail: &Vec<char>)
    ensures
        final(v)@ == old(v)@ + tail@,
{
    let ghost head = v@;
    let mut i: usize = 0;
    while i < tail.len()
        invariant
            i <= tail@.len(),
            v@ == head + tail@.subrange(0, i as int),
        decreases tail@.len() - i,
    {
        v.push(tail[i]);
        i = i + 1;
        assert(v@ =~= head + tail@.subrange(0, i as int));
    }
    assert(tail@.subrange(0, tail@.len() as int) =~= tail@);
}

/// Builds the image file name of a sample of the given split and row, and
/// of the row's region where the row holds several.
pub fn sample_file_name(split: &str, row_idx: u64, region: Option<u64>) -> (name: String)
    ensures
        name@ == sample_file_name_text(
            split@,
            row_idx as nat,
            match region {
                Some(r) => Some(r as nat),
                None => None,
            },
        ),
{
    let mut v = chars_of(split);
    v.push('_');
    let digits = u64_decimal(row_idx);
    extend_chars(&mut v, &digits);
    match region {
        Some(r) => {
            v.push('_');
            let digits = u64_decimal(r);
            extend_chars(&mut v, &digits);
        },
        None => {},
    }
    v.push('.');
    v.push('j');
    v.push('p');
    v.push('g');
    let name = string_from_chars(v.as_slice());
    proof {
        assert(name@ =~= sample_file_name_text(
            split@,
            row_idx as nat,
            match region {
                Some(r) => Some(r as nat),
                None => None,
            },
        ));
    }
    name
}

/// Records of the first `k` lines, for a dataset whose labels must encode to
/// at least one class.
pub open spec fn encoded_records(lines: Seq<Seq<char>>, map: Map<u32, usize>, k: int) -> Seq<
    (Seq<char>, Seq<char>, Seq<usize>),
>
    decreases k,
{
    if k <= 0 {
        seq![]
    } else {
        let prev = encoded_records(lines, map, k - 1);
        match record_parts(lines[k - 1]) {
            Some(parts) => {
                let indices = encoded_label(parts.1, map);
                if indices.len() > 0 {
                    prev.push((parts.0, parts.1, indices))
                } else {
                    prev
                }
            },
            None => prev,
        }
    }
}

/// Records of the first `k` lines, for a dataset that only needs a label
/// that is not blank.
pub open spec fn raw_records(lines: Seq<Seq<char>>, k: int) -> Seq<(Seq<char>, Seq<char>)>
    decreases k,
{
    if k <= 0 {
        seq![]
    } else {
        let prev = raw_records(lines, k - 1);
        match record_parts(lines[k - 1]) {
            Some(parts) => if trim(parts.1).len() > 0 {
                prev.push(parts)
            } else {
                prev
            },
            None => prev,
        }
    }
}

/// The view of parsed items: image name, label text, label classes.
pub open spec fn items_view(items: Seq<OcrItem>) -> Seq<(Seq<char>, Seq<char>, Seq<usize>)> {
    items.map_values(|r: OcrItem| (r.image_path@, r.label_text@, r.label_indices@))
}

/// Splits the text into lines.
fn lines_of(content: &str) -> (lines: Vec<Vec<char>>)
    ensures
        lines@.map_values(|l: Vec<char>| l@) == all_lines(content@),
{
    let chars = chars_of(content);
    let mut lines: Vec<Vec<char>> = Vec::new();
    let mut current: Vec<char> = Vec::new();
    let mut i: usize = 0;
    while i < chars.len()
        invariant
            i <= chars@.len(),
            chars@ == content@,
            split_lines(content@, i as int) == (lines@.map_values(|l: Vec<char>| l@), current@),
        decreases chars@.len() - i,
    {
        let ghost prev = lines@;
        if chars[i] == '\n' {
            lines.push(current);
            assert(lines@.map_values(|l: Vec<char>| l@) == prev.map_values(|l: Vec<char>| l@).push(
                current@,
            ));
            current = Vec::new();
        } else {
            current.push(chars[i]);
        }
        i = i + 1;
    }
    let ghost prev = lines@;
    lines.push(current);
    assert(lines@.map_values(|l: Vec<char>| l@) == prev.map_values(|l: Vec<char>| l@).push(
        current@,
    ));
    lines
}

/// Splits one line into its record parts.
fn parse_record(line: &Vec<char>) -> (parts: Option<(Vec<char>, Vec<char>)>)
    ensures
        match parts {
            Some(p) => record_parts(line@) == Some((p.0@, p.1@)),
            None => record_parts(line@) is None,
        },
{
    let t = trim_chars(line.as_slice());
    if t.len() == 0 {
        return None;
    }
    let mut i: usize = 0;
    while i < t.len() && t[i] != '\t'
        invariant
            i <= t@.len(),
            forall|j: int| 0 <= j < i ==> t@[j] != '\t',
        decreases t@.len() - i,
    {
        i = i + 1;
    }
    if i == t.len() {
        assert(!exists|j: int| 0 <= j < t@.len() && t@[j] == '\t');
        return None;
    }
    proof {
        let c = choose|j: int| 0 <= j < t@.len() && t@[j] == '\t' && forall|q: int| 0 <= q < j ==> t@[q] != '\t';
        assert(t@[i as int] == '\t');
        if c < i {
            assert(t@[c] != '\t');
        } else if c > i {
            assert(t@[i as int] != '\t');
        }
    }
    let name = copy_range(t.as_slice(), 0, i);
    let label = copy_range(t.as_slice(), i + 1, t.len());
    Some((name, label))
}

/// Parses the text of a `labels.txt` (`name<TAB>label` per line) for
/// recognition training: blank lines and lines without a tab are skipped,
/// and so are labels that no dictionary character encodes.
pub fn parse_labels(content: &str, char_map: &HashMap<u32, usize>) -> (records: Vec<OcrItem>)
    ensures
        items_view(records@) == encoded_records(
            all_lines(content@),
            char_map@,
            all_lines(content@).len() as int,
        ),
{
    let lines = lines_of(content);
    let ghost views = lines@.map_values(|l: Vec<char>| l@);
    let mut records: Vec<OcrItem> = Vec::new();
    let mut k: usize = 0;
    while k < lines.len()
        invariant
            k <= lines@.len(),
            views == lines@.map_values(|l: Vec<char>| l@),
            views == all_lines(content@),
            items_view(records@) == encoded_records(views, char_map@, k as int),
        decreases lines@.len() - k,
    {
        assert(views[k as int] == lines@[k as int]@);
        match parse_record(&lines[k]) {
            Some((name, label)) => {
                let label_text = string_from_chars(label.as_slice());
                let indices = encode_label(label_text.as_str(), char_map);
                if indices.len() > 0 {
                    let ghost prev = records@;
                    let rec = OcrItem {
                        image_path: string_from_chars(name.as_slice()),
                        label_indices: indices,
                        label_text,
                    };
                    records.push(rec);
                    assert(items_view(records@) =~= items_view(prev).push(
                        (name@, label@, indices@),
                    ));
                }
            },
            None => {},
        }
        k = k + 1;
    }
    records
}

/// Parses the text of a `labels.txt` for template training: like
/// `parse_labels`, but keeps every label that is not blank and encodes none.
pub fn parse_labels_raw(content: &str) -> (records: Vec<OcrItem>)
    ensures
        records@.len() == raw_records(all_lines(content@), all_lines(content@).len() as int).len(),
        forall|i: int|
            0 <= i < records@.len() ==> ((#[trigger] records@[i]).image_path@, records@[i].label_text@)
                == raw_records(all_lines(content@), all_lines(content@).len() as int)[i]
                && records@[i].label_indices@.len() == 0,
{
    let lines = lines_of(content);
    let ghost views = lines@.map_values(|l: Vec<char>| l@);
    let mut records: Vec<OcrItem> = Vec::new();
    let mut k: usize = 0;
    while k < lines.len()
        invariant
            k <= lines@.len(),
            views == lines@.map_values(|l: Vec<char>| l@),
            views == all_lines(content@),
            records@.len() == raw_records(views, k as int).len(),
            forall|i: int|
                0 <= i < records@.len() ==> ((#[trigger] records@[i]).image_path@, records@[i].label_text@)
                    == raw_records(views, k as int)[i] && records@[i].label_indices@.len() == 0,
        decreases lines@.len() - k,
    {
        assert(views[k as int] == lines@[k as int]@);
        match parse_record(&lines[k]) {
            Some((name, label)) => {
                let trimmed = trim_chars(label.as_slice());
                if trimmed.len() > 0 {
                    let rec = OcrItem {
                        image_path: string_from_chars(name.as_slice()),
                        label_indices: Vec::new(),
                        label_text: string_from_chars(label.as_slice()),
                    };
                    records.push(rec);
                }
            },
            None => {},
        }
        k = k + 1;
    }
    records
}

/// A recognition dataset: the items of its `labels.txt`.
pub struct OcrDataset {
    items: Vec<OcrItem>,
}

impl OcrDataset {
    /// The dataset's items as image name, label text and label classes.
    pub closed spec fn view_items(&self) -> Seq<(Seq<char>, Seq<char>, Seq<usize>)> {
        items_view(self.items@)
    }

    /// The dataset of a `labels.txt` for recognition training: one item per
    /// line `name<TAB>label` whose label encodes to at least one class.
    pub fn from_labels(content: &str, char_to_idx: &HashMap<u32, usize>) -> (d: Self)
        ensures
            d.view_items() == encoded_records(
                all_lines(content@),
                char_to_idx@,
                all_lines(content@).len() as int,
            ),
    {
        OcrDataset { items: parse_labels(content, char_to_idx) }
    }

    /// The dataset of a `labels.txt` for template training: every line with
    /// a label that is not blank, no classes.
    pub fn from_labels_raw(content: &str) -> (d: Self)
        ensures
            d.view_items().len() == raw_records(
                all_lines(content@),
                all_lines(content@).len() as int,
            ).len(),
            forall|i: int|
                0 <= i < d.view_items().len() ==> ((#[trigger] d.view_items()[i]).0, d.view_items()[i].1)
                    == raw_records(all_lines(content@), all_lines(content@).len() as int)[i]
                    && d.view_items()[i].2.len() == 0,
    {
        let items = parse_labels_raw(content);
        let d = OcrDataset { items };
        assert forall|i: int| 0 <= i < d.view_items().len() implies ((#[trigger] d.view_items()[i]).0,
            d.view_items()[i].1) == raw_records(all_lines(content@), all_lines(content@).len() as int)[i]
            && d.view_items()[i].2.len() == 0 by {
            assert(d.view_items()[i] == (d.items@[i].image_path@, d.items@[i].label_text@, d.items@[i].label_indices@));
        }
        d
    }

    /// All items, in file order.
    pub fn items(&self) -> (items: &[OcrItem])
        ensures
            items_view(items@) == self.view_items(),
    {
        self.items.as_slice()
    }

    /// Number of items.
    pub fn len(&self) -> (n: usize)
        ensures
            n == self.view_items().len(),
    {
        self.items.len()
    }

    /// A copy of item `index`, or `None` past the last item.
    pub fn get(&self, index: usize) -> (r: Option<OcrItem>)
        ensures
            match r {
                Some(item) => Some(item_view(item)),
                None => None::<(Seq<char>, Seq<char>, Seq<usize>)>,
            } == if index < self.view_items().len() {
                Some(self.view_items()[index as int])
            } else {
                None
            },
    {
        if index < self.items.len() {
            Some(copy_item(&self.items[index]))
        } else {
            None
        }
    }
}

/// An item as image name, label text and label classes.
pub open spec fn item_view(item: OcrItem) -> (Seq<char>, Seq<char>, Seq<usize>) {
    (item.image_path@, item.label_text@, item.label_indices@)
}

/// A copy of an item.
fn copy_item(item: &OcrItem) -> (copy: OcrItem)
    ensures
        item_view(copy) == item_view(*item),
{
    let mut indices: Vec<usize> = Vec::new();
    let mut i: usize = 0;
    while i < item.label_indices.len()
        invariant
            i <= item.label_indices@.len(),
            indices@ == item.label_indices@.subrange(0, i as int),
        decreases item.label_indices@.len() - i,
    {
        indices.push(item.label_indices[i]);
        i = i + 1;
        assert(indices@ =~= item.label_indices@.subrange(0, i as int));
    }
    assert(item.label_indices@.subrange(0, i as int) =~= item.label_indices@);
    OcrItem {
        image_path: item.image_path.clone(),
        label_indices: indices,
        label_text: item.label_text.clone(),
    }
}

/// The characters that a dictionary file gives a class to, by code point.
pub fn allowed_chars(content: &str) -> (set: HashSet<u32>)
    ensures
        set@ == dict_char_map(content@).dom(),
{
    let decoder = crate::decode::CtcDecoder::from_dict_content(content);
    let classes = decoder.classes();
    let ghost entries = normalize_entries(dict_entries(content@));
    let ghost views = classes@.map_values(|s: String| s@);
    assert(views.len() == classes@.len());
    assert forall|j: int| 0 <= j < entries.len() implies (#[trigger] classes@[j + 1])@ == entries[j] by {
        assert(views[j + 1] == classes@[j + 1]@);
        assert(dict_classes(content@)[j + 1] == entries[j]);
    }
    let mut set: HashSet<u32> = HashSet::new();
    let mut i: usize = 1;
    while i < classes.len()
        invariant
            1 <= i <= classes@.len(),
            classes@.len() == entries.len() + 1,
            forall|j: int| 0 <= j < entries.len() ==> (#[trigger] classes@[j + 1])@ == entries[j],
            set@ == char_map_prefix(entries, i - 1).dom(),
        decreases classes@.len() - i,
    {
        let entry = chars_of(classes[i].as_str());
        assert(classes@[(i - 1) + 1]@ == entries[i - 1]);
        if entry.len() > 0 {
            set.insert(entry[0] as u32);
        }
        i = i + 1;
        assert(set@ =~= char_map_prefix(entries, i - 1).dom());
    }
    set
}

// ---------------------------------------------------------------------------
// Train / validation split
// ---------------------------------------------------------------------------

/// Membership after a push: the old members and the pushed value.
proof fn lemma_push_contains(s: Seq<usize>, x: usize, j: usize)
    ensures
        s.push(x).contains(j) <==> (s.contains(j) || j == x),
{
    if s.contains(j) {
        let k = choose|k: int| 0 <= k < s.len() && s[k] == j;
        assert(s.push(x)[k] == j);
    }
    if j == x {
        assert(s.push(x)[s.len() as int] == x);
    }
    if s.push(x).contains(j) {
        let k = choose|k: int| 0 <= k < s.len() + 1 && s.push(x)[k] == j;
        if k < s.len() {
            assert(s[k] == j);
        }
    }
}

/// A sequence whose members are all below `bound` does not hold `bound`.
proof fn lemma_bounded_not_contains(s: Seq<usize>, bound: usize)
    requires
        forall|k: int| 0 <= k < s.len() ==> #[trigger] s[k] < bound,
    ensures
        !s.contains(bound),
{
}

/// Splits `n` samples into training and validation indices.
pub fn split_dataset(n: usize) -> (split: (Vec<usize>, Vec<usize>))
    ensures
        n <= 1 ==> split.0@ == Seq::new(n as nat, |i: int| i as usize) && split.1@ == Seq::new(
            n as nat,
            |i: int| i as usize,
        ),
        n > 1 ==> forall|i: usize|
            i < n ==> (split.0@.contains(i) <==> i % 5 != 0) && (split.1@.contains(i) <==> i % 5
                == 0),
        forall|k: int| 0 <= k < split.0@.len() ==> #[trigger] split.0@[k] < n,
        forall|k: int| 0 <= k < split.1@.len() ==> #[trigger] split.1@[k] < n,
        forall|a: int, b: int| 0 <= a < b < split.0@.len() ==> split.0@[a] < split.0@[b],
        forall|a: int, b: int| 0 <= a < b < split.1@.len() ==> split.1@[a] < split.1@[b],
{
    let mut train: Vec<usize> = Vec::new();
    let mut validation: Vec<usize> = Vec::new();
    if n <= 1 {
        let mut i: usize = 0;
        while i < n
            invariant
                i <= n <= 1,
                train@ == Seq::new(i as nat, |j: int| j as usize),
                validation@ == Seq::new(i as nat, |j: int| j as usize),
            decreases n - i,
        {
            train.push(i);
            validation.push(i);
            i = i + 1;
            assert(train@ =~= Seq::new(i as nat, |j: int| j as usize));
            assert(validation@ =~= Seq::new(i as nat, |j: int| j as usize));
        }
        return (train, validation);
    }
    let mut i: usize = 0;
    while i < n
        invariant
            i <= n,
            forall|j: usize| j < i ==> (train@.contains(j) <==> j % 5 != 0),
            forall|j: usize| j < i ==> (validation@.contains(j) <==> j % 5 == 0),
            forall|k: int| 0 <= k < train@.len() ==> #[trigger] train@[k] < i,
            forall|k: int| 0 <= k < validation@.len() ==> #[trigger] validation@[k] < i,
            forall|a: int, b: int| 0 <= a < b < train@.len() ==> train@[a] < train@[b],
            forall|a: int, b: int| 0 <= a < b < validation@.len() ==> validation@[a] < validation@[b],
        decreases n - i,
    {
        let ghost old_train = train@;
        let ghost old_validation = validation@;
        if i % 5 == 0 {
            validation.push(i);
            assert(validation@[validation@.len() - 1] == i);
        } else {
            train.push(i);
            assert(train@[train@.len() - 1] == i);
        }
        proof {
            assert forall|j: usize| j < i + 1 implies (train@.contains(j) <==> j % 5 != 0) && (
            validation@.contains(j) <==> j % 5 == 0) by {
                lemma_push_contains(old_train, i, j);
                lemma_push_contains(old_validation, i, j);
                lemma_bounded_not_contains(old_train, i);
                lemma_bounded_not_contains(old_validation, i);
            }
        }
        i = i + 1;
    }
    (train, validation)
}

} // verus!
