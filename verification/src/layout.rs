use vstd::prelude::*;

use crate::text::{chars_of, push_char, string_from_chars};

verus! {

broadcast use vstd::string::group_string_axioms;

// ---------------------------------------------------------------------------
// Text direction
// ---------------------------------------------------------------------------

/// Reading direction of a text region.
#[derive(Debug, Clone, Copy, PartialEq, Eq, Structural)]
pub enum TextDirection {
    Horizontal,
    Vertical,
}

/// Reading direction judged from a crop's shape: a crop taller than five
/// quarters of its width reads top to bottom. Five times the width saturates
/// at `u32::MAX` before the division.
pub open spec fn shape_direction(width: u32, height: u32) -> TextDirection {
    let scaled: int = if width * 5 > u32::MAX {
        u32::MAX as int
    } else {
        width * 5
    };
    if height > scaled / 4 {
        TextDirection::Vertical
    } else {
        TextDirection::Horizontal
    }
}

/// Reading direction of a crop of the given size.
pub fn direction_from_shape(width: u32, height: u32) -> (d: TextDirection)
    ensures
        d == shape_direction(width, height),
{
    let wide: u64 = width as u64 * 5;
    let scaled: u64 = if wide > u32::MAX as u64 {
        u32::MAX as u64
    } else {
        wide
    };
    if height as u64 > scaled / 4 {
        TextDirection::Vertical
    } else {
        TextDirection::Horizontal
    }
}

/// Number of vertical entries among the first `k` directions.
pub open spec fn vertical_count(dirs: Seq<TextDirection>, k: int) -> nat
    decreases k,
{
    if k <= 0 {
        0
    } else {
        vertical_count(dirs, k - 1) + if dirs[k - 1] == TextDirection::Vertical {
            1nat
        } else {
            0nat
        }
    }
}

proof fn lemma_vertical_count_bound(dirs: Seq<TextDirection>, k: int)
    requires
        0 <= k,
    ensures
        vertical_count(dirs, k) <= k,
    decreases k,
{
    if k > 0 {
        lemma_vertical_count_bound(dirs, k - 1);
    }
}

/// Whether the page reads mainly vertically: at least two regions, and
/// strictly more than half of them vertical.
pub fn is_vertical_dominant(directions: &[TextDirection]) -> (b: bool)
    ensures
        b == (directions@.len() >= 2 && 2 * vertical_count(directions@, directions@.len() as int)
            > directions@.len()),
{
    if directions.len() < 2 {
        return false;
    }
    let mut vertical: usize = 0;
    let mut i: usize = 0;
    while i < directions.len()
        invariant
            i <= directions@.len(),
            vertical == vertical_count(directions@, i as int),
        decreases directions@.len() - i,
    {
        proof {
            lemma_vertical_count_bound(directions@, i as int);
        }
        if directions[i] == TextDirection::Vertical {
            vertical = vertical + 1;
        }
        i = i + 1;
    }
    proof {
        lemma_vertical_count_bound(directions@, directions@.len() as int);
    }
    vertical as u128 * 2 > directions.len() as u128
}

/// Chinese label of a reading direction.
pub fn direction_label(direction: TextDirection) -> (label: &'static str)
    ensures
        direction == TextDirection::Horizontal ==> label@ == "横排"@,
        direction == TextDirection::Vertical ==> label@ == "竖排"@,
{
    match direction {
        TextDirection::Horizontal => "横排",
        TextDirection::Vertical => "竖排",
    }
}

// ---------------------------------------------------------------------------
// Display width
// ---------------------------------------------------------------------------

/// Characters shown two columns wide: Hangul Jamo, CJK radicals through Yi,
/// Hangul syllables, CJK compatibility ideographs and forms, fullwidth ASCII
/// and symbols, emoji, and the CJK extension planes.
pub open spec fn is_wide(c: char) -> bool {
    let cp = c as u32;
    ||| 0x1100 <= cp <= 0x115F
    ||| 0x2E80 <= cp <= 0xA4CF
    ||| 0xAC00 <= cp <= 0xD7A3
    ||| 0xF900 <= cp <= 0xFAFF
    ||| 0xFE30 <= cp <= 0xFE4F
    ||| 0xFF00 <= cp <= 0xFF60
    ||| 0xFFE0 <= cp <= 0xFFE6
    ||| 0x1F300 <= cp <= 0x1FAFF
    ||| 0x20000 <= cp <= 0x3FFFD
}

/// Columns that one character occupies.
pub open spec fn char_width(c: char) -> nat {
    if is_wide(c) {
        2
    } else {
        1
    }
}

/// Width of every character: two columns for Hangul Jamo (U+1100..115F),
/// CJK radicals, punctuation, kana, ideographs and Yi (U+2E80..A4CF), Hangul
/// syllables (U+AC00..D7A3), compatibility ideographs (U+F900..FAFF), CJK
/// compatibility forms (U+FE30..FE4F), fullwidth forms (U+FF00..FF60 and
/// U+FFE0..FFE6), emoji (U+1F300..1FAFF) and the ideograph planes
/// (U+20000..3FFFD); one column for every other character.
pub proof fn lemma_char_width_blocks(c: char)
    ensures
        ({
            let u = c as u32;
            (0x1100 <= u <= 0x115F || 0x2E80 <= u <= 0xA4CF || 0xAC00 <= u <= 0xD7A3 || 0xF900
                <= u <= 0xFAFF || 0xFE30 <= u <= 0xFE4F || 0xFF00 <= u <= 0xFF60 || 0xFFE0 <= u
                <= 0xFFE6 || 0x1F300 <= u <= 0x1FAFF || 0x20000 <= u <= 0x3FFFD)
        }) ==> char_width(c) == 2,
        !({
            let u = c as u32;
            (0x1100 <= u <= 0x115F || 0x2E80 <= u <= 0xA4CF || 0xAC00 <= u <= 0xD7A3 || 0xF900
                <= u <= 0xFAFF || 0xFE30 <= u <= 0xFE4F || 0xFF00 <= u <= 0xFF60 || 0xFFE0 <= u
                <= 0xFFE6 || 0x1F300 <= u <= 0x1FAFF || 0x20000 <= u <= 0x3FFFD)
        }) ==> char_width(c) == 1,
{
}

/// Columns that a text occupies: the sum of its character widths.
pub open spec fn text_width(s: Seq<char>) -> nat
    decreases s.len(),
{
    if s.len() == 0 {
        0
    } else {
        text_width(s.drop_last()) + char_width(s.last())
    }
}

/// Width of a concatenation is the sum of the widths.
pub proof fn lemma_text_width_concat(a: Seq<char>, b: Seq<char>)
    ensures
        text_width(a + b) == text_width(a) + text_width(b),
    decreases b.len(),
{
    if b.len() > 0 {
        assert((a + b).drop_last() =~= a + b.drop_last());
        lemma_text_width_concat(a, b.drop_last());
    }
}

/// Every character takes one or two columns.
pub proof fn lemma_text_width_bounds(s: Seq<char>)
    ensures
        s.len() <= text_width(s) <= 2 * s.len(),
    decreases s.len(),
{
    if s.len() > 0 {
        lemma_text_width_bounds(s.drop_last());
    }
}

/// Display width of one character: 2 for CJK and other fullwidth
/// characters, 1 otherwise.
pub fn char_display_width(ch: char) -> (w: usize)
    ensures
        w == char_width(ch),
{
    let cp = ch as u32;
    let wide = (0x1100 <= cp && cp <= 0x115F) || (0x2E80 <= cp && cp <= 0xA4CF) || (0xAC00 <= cp
        && cp <= 0xD7A3) || (0xF900 <= cp && cp <= 0xFAFF) || (0xFE30 <= cp && cp <= 0xFE4F) || (
    0xFF00 <= cp && cp <= 0xFF60) || (0xFFE0 <= cp && cp <= 0xFFE6) || (0x1F300 <= cp && cp
        <= 0x1FAFF) || (0x20000 <= cp && cp <= 0x3FFFD);
    if wide {
        2
    } else {
        1
    }
}

/// Display width of the characters in `chars`.
pub fn chars_display_width(chars: &[char]) -> (w: usize)
    requires
        text_width(chars@) <= usize::MAX,
    ensures
        w == text_width(chars@),
{
    let mut w: usize = 0;
    let mut i: usize = 0;
    while i < chars.len()
        invariant
            i <= chars@.len(),
            text_width(chars@) <= usize::MAX,
            w == text_width(chars@.subrange(0, i as int)),
        decreases chars@.len() - i,
    {
        proof {
            assert(chars@.subrange(0, i + 1).drop_last() =~= chars@.subrange(0, i as int));
            lemma_text_width_concat(
                chars@.subrange(0, i + 1),
                chars@.subrange(i + 1, chars@.len() as int),
            );
            assert(chars@.subrange(0, i + 1) + chars@.subrange(i + 1, chars@.len() as int)
                =~= chars@);
        }
        w = w + char_display_width(chars[i]);
        i = i + 1;
    }
    assert(chars@.subrange(0, chars@.len() as int) =~= chars@);
    w
}

/// Estimated display width of a text: CJK and fullwidth characters count
/// two columns, all others one.
pub fn display_width(text: &str) -> (w: usize)
    requires
        text_width(text@) <= usize::MAX,
    ensures
        w == text_width(text@),
{
    let chars = chars_of(text);
    chars_display_width(chars.as_slice())
}

// ---------------------------------------------------------------------------
// Joining
// ---------------------------------------------------------------------------

/// The parts, separated by `sep`.
pub open spec fn join(parts: Seq<Seq<char>>, sep: char) -> Seq<char>
    decreases parts.len(),
{
    if parts.len() == 0 {
        seq![]
    } else if parts.len() == 1 {
        parts[0]
    } else {
        join(parts.drop_last(), sep).push(sep) + parts.last()
    }
}

// ---------------------------------------------------------------------------
// CSV
// ---------------------------------------------------------------------------

/// Characters that force a CSV field into quotes.
pub open spec fn csv_special(c: char) -> bool {
    c == ',' || c == '"' || c == '\n'
}

/// Doubles every quote character.
pub open spec fn double_quotes(s: Seq<char>) -> Seq<char>
    decreases s.len(),
{
    if s.len() == 0 {
        seq![]
    } else if s.last() == '"' {
        double_quotes(s.drop_last()) + seq!['"', '"']
    } else {
        double_quotes(s.drop_last()).push(s.last())
    }
}

/// A CSV field: quoted, with doubled quotes, when it holds a comma, a quote
/// or a newline; unchanged otherwise.
pub open spec fn csv_field(s: Seq<char>) -> Seq<char> {
    if exists|i: int| 0 <= i < s.len() && csv_special(#[trigger] s[i]) {
        seq!['"'] + double_quotes(s) + seq!['"']
    } else {
        s
    }
}

/// Escapes one CSV field with the standard quoting rules.
pub fn csv_escape(value: &str) -> (escaped: String)
    ensures
        escaped@ == csv_field(value@),
{
    let chars = chars_of(value);
    let mut special = false;
    let mut i: usize = 0;
    while i < chars.len()
        invariant
            i <= chars@.len(),
            chars@ == value@,
            special == exists|j: int| 0 <= j < i && csv_special(#[trigger] chars@[j]),
        decreases chars@.len() - i,
    {
        let c = chars[i];
        if c == ',' || c == '"' || c == '\n' {
            special = true;
        }
        i = i + 1;
    }
    if !special {
        return string_from_chars(chars.as_slice());
    }
    let mut out = String::new();
    push_char(&mut out, '"');
    let mut k: usize = 0;
    while k < chars.len()
        invariant
            k <= chars@.len(),
            out@ == seq!['"'] + double_quotes(chars@.subrange(0, k as int)),
        decreases chars@.len() - k,
    {
        assert(chars@.subrange(0, k + 1).drop_last() =~= chars@.subrange(0, k as int));
        let c = chars[k];
        if c == '"' {
            push_char(&mut out, '"');
            push_char(&mut out, '"');
        } else {
            push_char(&mut out, c);
        }
        k = k + 1;
        assert(out@ =~= seq!['"'] + double_quotes(chars@.subrange(0, k as int)));
    }
    push_char(&mut out, '"');
    assert(chars@.subrange(0, chars@.len() as int) =~= chars@);
    assert(out@ =~= seq!['"'] + double_quotes(value@) + seq!['"']);
    out
}

// ---------------------------------------------------------------------------
// Tables
// ---------------------------------------------------------------------------

/// Rows × columns grid of cell texts; empty cells are empty strings.
pub struct TableGrid {
    pub rows: Vec<Vec<String>>,
}

/// The cell texts of a grid.
pub open spec fn grid_view(rows: Seq<Vec<String>>) -> Seq<Seq<Seq<char>>> {
    rows.map_values(|row: Vec<String>| row@.map_values(|cell: String| cell@))
}

/// One CSV record: the escaped cells separated by commas.
pub open spec fn csv_record(row: Seq<Seq<char>>) -> Seq<char> {
    join(row.map_values(|cell: Seq<char>| csv_field(cell)), ',')
}

/// A grid as CSV: one record per row, separated by newlines.
pub open spec fn csv_table(grid: Seq<Seq<Seq<char>>>) -> Seq<char> {
    join(grid.map_values(|row: Seq<Seq<char>>| csv_record(row)), '\n')
}

/// What a CSV reader keeps while it scans: the records read so far, the
/// fields read so far of the current record, the raw text of the current
/// field, and whether it is inside quotes.
pub type CsvScan = (Seq<Seq<Seq<char>>>, Seq<Seq<char>>, Seq<char>, bool);

/// One character of CSV text: outside quotes, a comma ends the current
/// field and a newline ends the current record; a quote enters or leaves
/// quotes; everything else is field text.
pub open spec fn csv_step(st: CsvScan, ch: char) -> CsvScan {
    let (records, fields, current, quoted) = st;
    if ch == ',' && !quoted {
        (records, fields.push(current), seq![], false)
    } else if ch == '\n' && !quoted {
        (records.push(fields.push(current)), seq![], seq![], false)
    } else if ch == '"' {
        (records, fields, current.push(ch), !quoted)
    } else {
        (records, fields, current.push(ch), quoted)
    }
}

/// Scans the characters of `s` from the state `st`.
pub open spec fn csv_scan(st: CsvScan, s: Seq<char>) -> CsvScan
    decreases s.len(),
{
    if s.len() == 0 {
        st
    } else {
        csv_step(csv_scan(st, s.drop_last()), s.last())
    }
}

/// The state before any text is read.
pub open spec fn csv_start() -> CsvScan {
    (seq![], seq![], seq![], false)
}

/// The raw fields of a CSV record: its text split at the commas that lie
/// outside quotes.
pub open spec fn csv_split(record: Seq<char>) -> Seq<Seq<char>> {
    let (_, fields, current, _) = csv_scan(csv_start(), record);
    fields.push(current)
}

/// The raw records of a CSV text: split at the newlines outside quotes,
/// each split into its raw fields.
pub open spec fn csv_rows(text: Seq<char>) -> Seq<Seq<Seq<char>>> {
    let (records, fields, current, _) = csv_scan(csv_start(), text);
    records.push(fields.push(current))
}

/// Every pair of adjacent quotes stands for one quote.
pub open spec fn undouble_quotes(s: Seq<char>) -> Seq<char>
    decreases s.len(),
{
    if s.len() == 0 {
        seq![]
    } else if s.len() >= 2 && s.last() == '"' && s[s.len() - 2] == '"' {
        undouble_quotes(s.subrange(0, s.len() - 2)).push('"')
    } else {
        undouble_quotes(s.drop_last()).push(s.last())
    }
}

/// The value of a raw CSV field: a field in quotes loses them and its
/// doubled quotes; any other field is its own value.
pub open spec fn csv_value(field: Seq<char>) -> Seq<char> {
    if field.len() >= 2 && field[0] == '"' && field.last() == '"' {
        undouble_quotes(field.subrange(1, field.len() - 1))
    } else {
        field
    }
}

proof fn lemma_csv_scan_concat(st: CsvScan, a: Seq<char>, b: Seq<char>)
    ensures
        csv_scan(st, a + b) == csv_scan(csv_scan(st, a), b),
    decreases b.len(),
{
    if b.len() > 0 {
        assert((a + b).drop_last() =~= a + b.drop_last());
        lemma_csv_scan_concat(st, a, b.drop_last());
    }
}

/// One character read from `st`.
proof fn lemma_csv_scan_one(st: CsvScan, ch: char)
    ensures
        csv_scan(st, seq![ch]) == csv_step(st, ch),
{
    assert(seq![ch].drop_last() =~= Seq::<char>::empty());
    assert(csv_scan(st, Seq::<char>::empty()) == st);
}

/// Text without commas, quotes or newlines just extends the current field.
proof fn lemma_csv_scan_plain(
    records: Seq<Seq<Seq<char>>>,
    fields: Seq<Seq<char>>,
    current: Seq<char>,
    s: Seq<char>,
)
    requires
        forall|i: int| 0 <= i < s.len() ==> !csv_special(#[trigger] s[i]),
    ensures
        csv_scan((records, fields, current, false), s) == (records, fields, current + s, false),
    decreases s.len(),
{
    if s.len() > 0 {
        lemma_csv_scan_plain(records, fields, current, s.drop_last());
        assert(!csv_special(s[s.len() - 1]));
        assert((current + s.drop_last()).push(s.last()) =~= current + s);
    } else {
        assert(current + s =~= current);
    }
}

/// Inside quotes, a text with doubled quotes extends the current field and
/// ends inside quotes again.
proof fn lemma_csv_scan_doubled(
    records: Seq<Seq<Seq<char>>>,
    fields: Seq<Seq<char>>,
    current: Seq<char>,
    s: Seq<char>,
)
    ensures
        csv_scan((records, fields, current, true), double_quotes(s)) == (
            records,
            fields,
            current + double_quotes(s),
            true,
        ),
    decreases s.len(),
{
    if s.len() > 0 {
        let d = double_quotes(s.drop_last());
        lemma_csv_scan_doubled(records, fields, current, s.drop_last());
        if s.last() == '"' {
            let qq = seq!['"', '"'];
            let q = seq!['"'];
            assert(double_quotes(s) == d + qq);
            assert(qq =~= q + q);
            lemma_csv_scan_concat((records, fields, current, true), d, qq);
            let x: CsvScan = (records, fields, current + d, true);
            lemma_csv_scan_concat(x, q, q);
            lemma_csv_scan_one(x, '"');
            lemma_csv_scan_one((records, fields, (current + d).push('"'), false), '"');
            assert((current + d).push('"').push('"') =~= current + (d + qq));
        } else {
            assert(double_quotes(s) == d.push(s.last()));
            assert(d.push(s.last()).drop_last() =~= d);
            assert((current + d).push(s.last()) =~= current + d.push(s.last()));
        }
    } else {
        assert(current + double_quotes(s) =~= current);
    }
}

/// A field as this module writes it is read as one field, and the reader
/// is outside quotes after it.
proof fn lemma_csv_scan_field(records: Seq<Seq<Seq<char>>>, fields: Seq<Seq<char>>, cell: Seq<char>)
    ensures
        csv_scan((records, fields, seq![], false), csv_field(cell)) == (
            records,
            fields,
            csv_field(cell),
            false,
        ),
{
    if exists|i: int| 0 <= i < cell.len() && csv_special(#[trigger] cell[i]) {
        let open = seq!['"'];
        let body = double_quotes(cell);
        let start: CsvScan = (records, fields, seq![], false);
        assert(csv_field(cell) == open + body + open);
        lemma_csv_scan_concat(start, open + body, open);
        lemma_csv_scan_concat(start, open, body);
        lemma_csv_scan_one(start, '"');
        assert(Seq::<char>::empty().push('"') =~= open);
        lemma_csv_scan_doubled(records, fields, open, cell);
        lemma_csv_scan_one((records, fields, open + body, true), '"');
        assert((open + body).push('"') =~= open + body + open);
    } else {
        lemma_csv_scan_plain(records, fields, seq![], cell);
        assert(Seq::<char>::empty() + cell =~= cell);
    }
}

/// The fields that a row is written as.
pub open spec fn csv_fields(row: Seq<Seq<char>>) -> Seq<Seq<char>> {
    row.map_values(|cell: Seq<char>| csv_field(cell))
}

/// Scanning a record of a non-empty row ends inside its last field, with
/// the fields of the other cells read.
proof fn lemma_csv_scan_record(records: Seq<Seq<Seq<char>>>, row: Seq<Seq<char>>)
    requires
        row.len() > 0,
    ensures
        csv_scan((records, seq![], seq![], false), csv_record(row)) == (
            records,
            csv_fields(row.drop_last()),
            csv_field(row.last()),
            false,
        ),
    decreases row.len(),
{
    let fields = csv_fields(row);
    if row.len() == 1 {
        assert(fields[0] == csv_field(row[0]));
        assert(csv_record(row) == csv_field(row[0]));
        lemma_csv_scan_field(records, seq![], row[0]);
        assert(csv_fields(row.drop_last()) =~= Seq::<Seq<char>>::empty());
    } else {
        let head = row.drop_last();
        let head_fields = csv_fields(head);
        let init: CsvScan = (records, seq![], seq![], false);
        assert(fields.drop_last() =~= head_fields);
        assert(csv_record(row) == join(head_fields, ',').push(',') + fields.last());
        lemma_csv_scan_record(records, head);
        let comma = seq![','];
        assert(join(head_fields, ',').push(',') + fields.last() =~= join(head_fields, ',') + comma
            + fields.last());
        lemma_csv_scan_concat(init, join(head_fields, ',') + comma, fields.last());
        lemma_csv_scan_concat(init, join(head_fields, ','), comma);
        let after_head: CsvScan = (records, csv_fields(head.drop_last()), csv_field(head.last()), false);
        assert(csv_record(head) == join(head_fields, ','));
        lemma_csv_scan_one(after_head, ',');
        assert(csv_fields(head.drop_last()).push(csv_field(head.last())) =~= head_fields);
        assert(csv_fields(row.drop_last()) =~= head_fields);
        lemma_csv_scan_field(records, head_fields, row.last());
    }
}

/// Scanning the CSV text of a grid of non-empty rows ends inside the last
/// field of the last row, with every earlier record read.
proof fn lemma_csv_scan_table(grid: Seq<Seq<Seq<char>>>)
    requires
        grid.len() > 0,
        forall|r: int| 0 <= r < grid.len() ==> (#[trigger] grid[r]).len() > 0,
    ensures
        csv_scan(csv_start(), csv_table(grid)) == (
            grid.drop_last().map_values(|row: Seq<Seq<char>>| csv_fields(row)),
            csv_fields(grid.last().drop_last()),
            csv_field(grid.last().last()),
            false,
        ),
    decreases grid.len(),
{
    let records = grid.map_values(|row: Seq<Seq<char>>| csv_record(row));
    if grid.len() == 1 {
        assert(records[0] == csv_record(grid[0]));
        assert(csv_table(grid) == csv_record(grid[0]));
        lemma_csv_scan_record(seq![], grid[0]);
        assert(grid.drop_last().map_values(|row: Seq<Seq<char>>| csv_fields(row)) =~= Seq::<
            Seq<Seq<char>>,
        >::empty());
    } else {
        let head = grid.drop_last();
        let head_records = head.map_values(|row: Seq<Seq<char>>| csv_record(row));
        assert(records.drop_last() =~= head_records);
        assert(csv_table(grid) == join(head_records, '\n').push('\n') + records.last());
        assert(forall|r: int| 0 <= r < head.len() ==> (#[trigger] head[r]).len() > 0) by {
            assert forall|r: int| 0 <= r < head.len() implies (#[trigger] head[r]).len() > 0 by {
                assert(head[r] == grid[r]);
            }
        }
        lemma_csv_scan_table(head);
        let newline = seq!['\n'];
        assert(join(head_records, '\n').push('\n') + records.last() =~= join(head_records, '\n')
            + newline + records.last());
        lemma_csv_scan_concat(csv_start(), join(head_records, '\n') + newline, records.last());
        lemma_csv_scan_concat(csv_start(), join(head_records, '\n'), newline);
        assert(csv_table(head) == join(head_records, '\n'));
        let read = head.drop_last().map_values(|row: Seq<Seq<char>>| csv_fields(row));
        let after_head: CsvScan = (
            read,
            csv_fields(head.last().drop_last()),
            csv_field(head.last().last()),
            false,
        );
        lemma_csv_scan_one(after_head, '\n');
        let last_row = head.last();
        assert(csv_fields(last_row.drop_last()).push(csv_field(last_row.last())) =~= csv_fields(
            last_row,
        ));
        let done = grid.drop_last().map_values(|row: Seq<Seq<char>>| csv_fields(row));
        assert(read.push(csv_fields(last_row)) =~= done);
        lemma_csv_scan_record(done, grid.last());
    }
}

/// Reading back doubled quotes gives the text.
proof fn lemma_undouble(s: Seq<char>)
    ensures
        undouble_quotes(double_quotes(s)) == s,
    decreases s.len(),
{
    if s.len() > 0 {
        lemma_undouble(s.drop_last());
        let d = double_quotes(s.drop_last());
        if s.last() == '"' {
            let dd = d + seq!['"', '"'];
            assert(dd.subrange(0, dd.len() - 2) =~= d);
        } else {
            let dd = d.push(s.last());
            assert(dd.drop_last() =~= d);
        }
        assert(s.drop_last().push(s.last()) =~= s);
    }
}

/// The value of a written field is the cell.
proof fn lemma_csv_value_of_field(cell: Seq<char>)
    ensures
        csv_value(csv_field(cell)) == cell,
{
    if exists|i: int| 0 <= i < cell.len() && csv_special(#[trigger] cell[i]) {
        let f = csv_field(cell);
        assert(f.subrange(1, f.len() - 1) =~= double_quotes(cell));
        lemma_undouble(cell);
    } else {
        if cell.len() >= 2 {
            assert(!csv_special(cell[0]));
        }
    }
}

/// A CSV record holds exactly one field per cell of its row, empty cells
/// included: split at the commas outside quotes, it gives as many fields
/// as the row has cells, field `j` is the escaped cell `j`, and its value
/// is the cell itself.
pub proof fn lemma_csv_record_fields(row: Seq<Seq<char>>)
    requires
        row.len() > 0,
    ensures
        csv_split(csv_record(row)).len() == row.len(),
        forall|j: int|
            0 <= j < row.len() ==> #[trigger] csv_split(csv_record(row))[j] == csv_field(row[j]),
        forall|j: int| 0 <= j < row.len() ==> csv_value(#[trigger] csv_split(csv_record(row))[j]) == row[j],
{
    lemma_csv_scan_record(seq![], row);
    assert(csv_fields(row.drop_last()).push(csv_field(row.last())) =~= csv_fields(row));
    assert(csv_split(csv_record(row)) =~= csv_fields(row));
    assert forall|j: int| 0 <= j < row.len() implies csv_value(#[trigger] csv_split(csv_record(row))[j])
        == row[j] by {
        lemma_csv_value_of_field(row[j]);
    }
}

/// The CSV text of a table reads back as the table: split at the newlines
/// and commas outside quotes, it has one record per row and one field per
/// cell, and field `j` of record `r` has cell `j` of row `r` as its value.
/// (A row without cells is written as an empty line, which reads as one
/// empty field, so every row is taken to have a cell.)
pub proof fn lemma_csv_table_reads_back(grid: Seq<Seq<Seq<char>>>)
    requires
        grid.len() > 0,
        forall|r: int| 0 <= r < grid.len() ==> (#[trigger] grid[r]).len() > 0,
    ensures
        csv_rows(csv_table(grid)).len() == grid.len(),
        forall|r: int|
            0 <= r < grid.len() ==> (#[trigger] csv_rows(csv_table(grid))[r]).len() == grid[r].len(),
        forall|r: int, j: int|
            0 <= r < grid.len() && 0 <= j < grid[r].len() ==> csv_value(
                #[trigger] csv_rows(csv_table(grid))[r][j],
            ) == grid[r][j],
{
    lemma_csv_scan_table(grid);
    let last_row = grid.last();
    assert(csv_fields(last_row.drop_last()).push(csv_field(last_row.last())) =~= csv_fields(
        last_row,
    ));
    let expected = grid.map_values(|row: Seq<Seq<char>>| csv_fields(row));
    assert(grid.drop_last().map_values(|row: Seq<Seq<char>>| csv_fields(row)).push(
        csv_fields(last_row),
    ) =~= expected);
    assert(csv_rows(csv_table(grid)) == expected);
    assert forall|r: int, j: int| 0 <= r < grid.len() && 0 <= j < grid[r].len() implies csv_value(
        #[trigger] csv_rows(csv_table(grid))[r][j],
    ) == grid[r][j] by {
        assert(expected[r] == csv_fields(grid[r]));
        lemma_csv_value_of_field(grid[r][j]);
    }
}

/// Joining one more part appends the separator and that part.
pub proof fn lemma_join_step(parts: Seq<Seq<char>>, sep: char, k: int)
    requires
        0 < k <= parts.len(),
    ensures
        join(parts.subrange(0, k), sep) == if k == 1 {
            parts[0]
        } else {
            join(parts.subrange(0, k - 1), sep).push(sep) + parts[k - 1]
        },
{
    assert(parts.subrange(0, k).drop_last() =~= parts.subrange(0, k - 1));
}

/// Renders the grid as CSV (comma separated, standard quote escaping).
pub fn render_table_csv(table: &TableGrid) -> (csv: String)
    ensures
        csv@ == csv_table(grid_view(table.rows@)),
{
    let ghost grid = grid_view(table.rows@);
    let ghost records = grid.map_values(|row: Seq<Seq<char>>| csv_record(row));
    let mut out = String::new();
    let mut r: usize = 0;
    while r < table.rows.len()
        invariant
            r <= table.rows@.len(),
            grid == grid_view(table.rows@),
            records == grid.map_values(|row: Seq<Seq<char>>| csv_record(row)),
            out@ == join(records.subrange(0, r as int), '\n'),
        decreases table.rows@.len() - r,
    {
        let row = &table.rows[r];
        if r > 0 {
            push_char(&mut out, '\n');
        }
        let ghost before = out@;
        let ghost fields = grid[r as int].map_values(|cell: Seq<char>| csv_field(cell));
        let mut c: usize = 0;
        while c < row.len()
            invariant
                c <= row@.len(),
                row@ == table.rows@[r as int]@,
                grid == grid_view(table.rows@),
                r < table.rows@.len(),
                fields == grid[r as int].map_values(|cell: Seq<char>| csv_field(cell)),
                out@ == before + join(fields.subrange(0, c as int), ','),
            decreases row@.len() - c,
        {
            let ghost prev = out@;
            if c > 0 {
                push_char(&mut out, ',');
            }
            let escaped = csv_escape(row[c].as_str());
            out.append(escaped.as_str());
            proof {
                lemma_join_step(fields, ',', c + 1);
                assert(fields[c as int] == csv_field(row@[c as int]@));
                if c > 0 {
                    assert(out@ =~= before + join(fields.subrange(0, c + 1), ','));
                } else {
                    assert(out@ =~= before + join(fields.subrange(0, c + 1), ','));
                }
            }
            c = c + 1;
        }
        proof {
            assert(fields.subrange(0, row@.len() as int) =~= fields);
            assert(records[r as int] == join(fields, ','));
            lemma_join_step(records, '\n', r + 1);
            assert(out@ =~= join(records.subrange(0, r + 1), '\n'));
        }
        r = r + 1;
    }
    assert(records.subrange(0, table.rows@.len() as int) =~= records);
    out
}

/// Number of columns: the length of the longest among the first `r` rows.
pub open spec fn column_count(grid: Seq<Seq<Seq<char>>>, r: int) -> nat
    decreases r,
{
    if r <= 0 {
        0
    } else {
        let prev = column_count(grid, r - 1);
        if grid[r - 1].len() > prev {
            grid[r - 1].len()
        } else {
            prev
        }
    }
}

/// Widest display width of column `j` among the first `r` rows.
pub open spec fn column_width(grid: Seq<Seq<Seq<char>>>, j: int, r: int) -> nat
    decreases r,
{
    if r <= 0 {
        0
    } else {
        let prev = column_width(grid, j, r - 1);
        let w = if j < grid[r - 1].len() {
            text_width(grid[r - 1][j])
        } else {
            0
        };
        if w > prev {
            w
        } else {
            prev
        }
    }
}

/// First display column of column `j`: the columns before it, each as wide
/// as its widest cell, separated by two spaces.
pub open spec fn column_start(grid: Seq<Seq<Seq<char>>>, j: int) -> nat
    decreases j,
{
    if j <= 0 {
        0
    } else {
        column_start(grid, j - 1) + column_width(grid, j - 1, grid.len() as int) + 2
    }
}

/// `n` spaces.
pub open spec fn spaces(n: int) -> Seq<char> {
    Seq::new(if n > 0 { n as nat } else { 0 }, |i: int| ' ')
}

/// The first `k` cells of a row laid out at their column starts; empty
/// cells are skipped, and a cell that would start left of the cursor
/// follows the previous text directly.
pub open spec fn render_row(grid: Seq<Seq<Seq<char>>>, row: Seq<Seq<char>>, k: int) -> Seq<char>
    decreases k,
{
    if k <= 0 {
        seq![]
    } else {
        let prev = render_row(grid, row, k - 1);
        if row[k - 1].len() == 0 {
            prev
        } else {
            prev + spaces(column_start(grid, k - 1) - text_width(prev)) + row[k - 1]
        }
    }
}

/// Drops trailing ASCII spaces.
pub open spec fn trim_trailing_spaces(s: Seq<char>) -> Seq<char>
    decreases s.len(),
{
    if s.len() > 0 && s.last() == ' ' {
        trim_trailing_spaces(s.drop_last())
    } else {
        s
    }
}

/// A grid rendered in aligned monospace columns: one line per row, trailing
/// spaces removed; empty when no row has a cell.
pub open spec fn monospace_table(grid: Seq<Seq<Seq<char>>>) -> Seq<char> {
    if column_count(grid, grid.len() as int) == 0 {
        seq![]
    } else {
        join(
            grid.map_values(
                |row: Seq<Seq<char>>| trim_trailing_spaces(render_row(grid, row, row.len() as int)),
            ),
            '\n',
        )
    }
}

proof fn lemma_column_count(grid: Seq<Seq<Seq<char>>>, r: int, q: int)
    requires
        0 <= q < r <= grid.len(),
    ensures
        grid[q].len() <= column_count(grid, r),
    decreases r,
{
    if q < r - 1 {
        lemma_column_count(grid, r - 1, q);
    }
}

proof fn lemma_column_width(grid: Seq<Seq<Seq<char>>>, j: int, r: int, q: int)
    requires
        0 <= q < r <= grid.len(),
        0 <= j < grid[q].len(),
    ensures
        text_width(grid[q][j]) <= column_width(grid, j, r),
    decreases r,
{
    if q < r - 1 {
        lemma_column_width(grid, j, r - 1, q);
    }
}

proof fn lemma_column_width_zero(grid: Seq<Seq<Seq<char>>>, j: int, r: int)
    requires
        0 <= r <= grid.len(),
        column_count(grid, r) <= j,
    ensures
        column_width(grid, j, r) == 0,
    decreases r,
{
    if r > 0 {
        lemma_column_width_zero(grid, j, r - 1);
    }
}

proof fn lemma_column_start_mono(grid: Seq<Seq<Seq<char>>>, i: int, j: int)
    requires
        0 <= i <= j,
    ensures
        column_start(grid, i) + (j - i) * 2 <= column_start(grid, j),
        i < j ==> column_start(grid, i) + column_width(grid, i, grid.len() as int) + 2
            <= column_start(grid, j),
    decreases j - i,
{
    if i < j {
        lemma_column_start_mono(grid, i, j - 1);
        if i < j - 1 {
            lemma_column_start_mono(grid, i + 1, j - 1);
        }
    }
}

proof fn lemma_trim_trailing_spaces_len(s: Seq<char>)
    ensures
        trim_trailing_spaces(s).len() <= s.len(),
        trim_trailing_spaces(s) =~= s.subrange(0, trim_trailing_spaces(s).len() as int),
    decreases s.len(),
{
    if s.len() > 0 && s.last() == ' ' {
        lemma_trim_trailing_spaces_len(s.drop_last());
    }
}

proof fn lemma_spaces_width(n: int)
    ensures
        text_width(spaces(n)) == if n > 0 {
            n
        } else {
            0
        },
    decreases n,
{
    if n > 0 {
        lemma_spaces_width(n - 1);
        assert(spaces(n).drop_last() =~= spaces(n - 1));
    } else {
        assert(spaces(n) =~= Seq::<char>::empty());
    }
}

/// The first `k` cells of a row of the grid never reach past the start of
/// column `k`.
proof fn lemma_render_row_width(grid: Seq<Seq<Seq<char>>>, r: int, k: int)
    requires
        0 <= r < grid.len(),
        0 <= k <= grid[r].len(),
    ensures
        text_width(render_row(grid, grid[r], k)) <= column_start(grid, k),
    decreases k,
{
    if k > 0 {
        let row = grid[r];
        let prev = render_row(grid, row, k - 1);
        lemma_render_row_width(grid, r, k - 1);
        lemma_column_start_mono(grid, k - 1, k);
        if row[k - 1].len() > 0 {
            let gap = spaces(column_start(grid, k - 1) - text_width(prev));
            lemma_spaces_width(column_start(grid, k - 1) - text_width(prev));
            lemma_text_width_concat(prev, gap);
            lemma_text_width_concat(prev + gap, row[k - 1]);
            lemma_column_width(grid, k - 1, grid.len() as int, r);
        }
    }
}

/// Columns line up: in every row, a non-empty cell of column `k` begins at
/// display column `column_start(grid, k)`, the same on every row; that is,
/// what the row shows before the cell is exactly that wide.
pub proof fn lemma_cells_aligned(grid: Seq<Seq<Seq<char>>>, r: int, k: int)
    requires
        0 <= r < grid.len(),
        0 <= k < grid[r].len(),
        grid[r][k].len() > 0,
    ensures
        ({
            let shown = render_row(grid, grid[r], k + 1);
            let cell = grid[r][k];
            &&& shown.len() >= cell.len()
            &&& shown.subrange(shown.len() - cell.len(), shown.len() as int) == cell
            &&& text_width(shown.subrange(0, shown.len() - cell.len())) == column_start(grid, k)
        }),
{
    let row = grid[r];
    let prev = render_row(grid, row, k);
    let cell = row[k];
    let gap = spaces(column_start(grid, k) - text_width(prev));
    let shown = render_row(grid, row, k + 1);
    assert(shown == prev + gap + cell);
    lemma_render_row_width(grid, r, k);
    lemma_spaces_width(column_start(grid, k) - text_width(prev));
    lemma_text_width_concat(prev, gap);
    assert(shown.subrange(0, shown.len() - cell.len()) =~= prev + gap);
    assert(shown.subrange(shown.len() - cell.len(), shown.len() as int) =~= cell);
}

/// Removes trailing spaces from a character vector.
fn pop_trailing_spaces(v: &mut Vec<char>)
    ensures
        final(v)@ == trim_trailing_spaces(old(v)@),
{
    let ghost orig = v@;
    while v.len() > 0 && v[v.len() - 1] == ' '
        invariant
            trim_trailing_spaces(v@) == trim_trailing_spaces(orig),
        decreases v@.len(),
    {
        v.pop();
    }
}

/// Renders the grid with every column as wide as its widest cell (CJK
/// characters count two columns) and two spaces between columns.
pub fn render_table_monospace(table: &TableGrid) -> (text: String)
    requires
        column_start(
            grid_view(table.rows@),
            column_count(grid_view(table.rows@), table.rows@.len() as int) as int,
        ) <= usize::MAX,
    ensures
        text@ == monospace_table(grid_view(table.rows@)),
{
    let ghost grid = grid_view(table.rows@);
    let nrows = table.rows.len();
    // Column count.
    let mut col_count: usize = 0;
    let mut r: usize = 0;
    while r < nrows
        invariant
            nrows == table.rows@.len(),
            grid == grid_view(table.rows@),
            r <= nrows,
            col_count == column_count(grid, r as int),
        decreases nrows - r,
    {
        if table.rows[r].len() > col_count {
            col_count = table.rows[r].len();
        }
        r = r + 1;
    }
    if col_count == 0 {
        return String::new();
    }
    let ghost total = column_start(grid, col_count as int);
    // Column widths.
    let mut col_width: Vec<usize> = vec![0usize; col_count];
    let mut r: usize = 0;
    while r < nrows
        invariant
            nrows == table.rows@.len(),
            grid == grid_view(table.rows@),
            r <= nrows,
            col_count == column_count(grid, nrows as int),
            total == column_start(grid, col_count as int),
            total <= usize::MAX,
            col_width@.len() == col_count,
            forall|j: int| 0 <= j < col_count ==> #[trigger] col_width@[j] == column_width(grid, j, r as int),
        decreases nrows - r,
    {
        let row = &table.rows[r];
        proof {
            lemma_column_count(grid, nrows as int, r as int);
        }
        let mut i: usize = 0;
        while i < row.len()
            invariant
                row@ == table.rows@[r as int]@,
                r < nrows,
                nrows == table.rows@.len(),
                grid == grid_view(table.rows@),
                i <= row@.len(),
                row@.len() <= col_count,
                col_count == column_count(grid, nrows as int),
                total == column_start(grid, col_count as int),
                total <= usize::MAX,
                col_width@.len() == col_count,
                forall|j: int| 0 <= j < i ==> #[trigger] col_width@[j] == column_width(grid, j, r + 1),
                forall|j: int| i <= j < col_count ==> #[trigger] col_width@[j] == column_width(grid, j, r as int),
            decreases row@.len() - i,
        {
            proof {
                assert(grid[r as int][i as int] == row@[i as int]@);
                lemma_column_width(grid, i as int, nrows as int, r as int);
                lemma_column_start_mono(grid, i as int, col_count as int);
                lemma_column_start_mono(grid, i as int + 1, col_count as int);
            }
            let w = display_width(row[i].as_str());
            if w > col_width[i] {
                col_width.set(i, w);
            }
            i = i + 1;
        }
        proof {
            assert forall|j: int| row@.len() <= j < col_count implies #[trigger] col_width@[j]
                == column_width(grid, j, r + 1) by {
            }
        }
        r = r + 1;
    }
    // Column starts.
    let mut col_start: Vec<usize> = vec![0usize; col_count];
    let mut i: usize = 1;
    while i < col_count
        invariant
            grid == grid_view(table.rows@),
            nrows == table.rows@.len(),
            1 <= i <= col_count,
            col_count == column_count(grid, nrows as int),
            total == column_start(grid, col_count as int),
            total <= usize::MAX,
            col_width@.len() == col_count,
            col_start@.len() == col_count,
            forall|j: int| 0 <= j < col_count ==> #[trigger] col_width@[j] == column_width(grid, j, nrows as int),
            forall|j: int| 0 <= j < i ==> #[trigger] col_start@[j] == column_start(grid, j),
        decreases col_count - i,
    {
        proof {
            lemma_column_start_mono(grid, i as int, col_count as int);
        }
        let next = col_start[i - 1] + col_width[i - 1] + 2;
        col_start.set(i, next);
        i = i + 1;
    }
    // Rows.
    let ghost lines = grid.map_values(
        |row: Seq<Seq<char>>| trim_trailing_spaces(render_row(grid, row, row.len() as int)),
    );
    let mut out = String::new();
    let mut r: usize = 0;
    while r < nrows
        invariant
            grid == grid_view(table.rows@),
            nrows == table.rows@.len(),
            r <= nrows,
            col_count == column_count(grid, nrows as int),
            total == column_start(grid, col_count as int),
            total <= usize::MAX,
            col_width@.len() == col_count,
            col_start@.len() == col_count,
            forall|j: int| 0 <= j < col_count ==> #[trigger] col_width@[j] == column_width(grid, j, nrows as int),
            forall|j: int| 0 <= j < col_count ==> #[trigger] col_start@[j] == column_start(grid, j),
            lines == grid.map_values(
                |row: Seq<Seq<char>>| trim_trailing_spaces(render_row(grid, row, row.len() as int)),
            ),
            out@ == join(lines.subrange(0, r as int), '\n'),
        decreases nrows - r,
    {
        let row = &table.rows[r];
        let ghost grow = grid[r as int];
        proof {
            lemma_column_count(grid, nrows as int, r as int);
        }
        let mut line: Vec<char> = Vec::new();
        let mut cursor: usize = 0;
        let mut c: usize = 0;
        while c < row.len()
            invariant
                row@ == table.rows@[r as int]@,
                grow == grid[r as int],
                r < nrows,
                nrows == table.rows@.len(),
                grid == grid_view(table.rows@),
                c <= row@.len(),
                row@.len() <= col_count,
                col_count == column_count(grid, nrows as int),
                total == column_start(grid, col_count as int),
                total <= usize::MAX,
                col_width@.len() == col_count,
                col_start@.len() == col_count,
                forall|j: int| 0 <= j < col_count ==> #[trigger] col_width@[j] == column_width(grid, j, nrows as int),
                forall|j: int| 0 <= j < col_count ==> #[trigger] col_start@[j] == column_start(grid, j),
                line@ == render_row(grid, grow, c as int),
                cursor == text_width(line@),
                c > 0 ==> cursor + 2 <= column_start(grid, c as int),
            decreases row@.len() - c,
        {
            let cell = &row[c];
            let ghost prev = line@;
            proof {
                assert(grow[c as int] == cell@);
                lemma_column_width(grid, c as int, nrows as int, r as int);
                lemma_column_start_mono(grid, c as int, col_count as int);
                lemma_column_start_mono(grid, c as int + 1, col_count as int);
                if c > 0 {
                    lemma_column_start_mono(grid, c as int - 1, c as int);
                }
            }
            let cell_chars = chars_of(cell.as_str());
            if cell_chars.len() == 0 {
                proof {
                    lemma_column_start_mono(grid, c as int, c as int + 1);
                }
            } else {
                let start = col_start[c];
                while cursor < start
                    invariant
                        cursor <= start || (cursor == text_width(prev) && start < cursor),
                        start == column_start(grid, c as int),
                        line@ == prev + spaces(cursor - text_width(prev)),
                        cursor >= text_width(prev),
                        cursor == text_width(line@),
                    decreases start - cursor,
                {
                    let ghost before = line@;
                    line.push(' ');
                    proof {
                        assert(line@.drop_last() =~= before);
                        assert(line@ =~= prev + spaces(cursor + 1 - text_width(prev)));
                    }
                    cursor = cursor + 1;
                }
                let w = chars_display_width(cell_chars.as_slice());
                let ghost padded = line@;
                let mut k: usize = 0;
                while k < cell_chars.len()
                    invariant
                        k <= cell_chars@.len(),
                        line@ == padded + cell_chars@.subrange(0, k as int),
                    decreases cell_chars@.len() - k,
                {
                    line.push(cell_chars[k]);
                    k = k + 1;
                    assert(line@ =~= padded + cell_chars@.subrange(0, k as int));
                }
                proof {
                    assert(cell_chars@.subrange(0, cell_chars@.len() as int) =~= cell_chars@);
                    lemma_text_width_concat(padded, cell_chars@);
                    lemma_column_start_mono(grid, c as int, c as int + 1);
                    assert(padded =~= prev + spaces(column_start(grid, c as int) - text_width(prev)));
                }
                cursor = cursor + w;
            }
            c = c + 1;
        }
        pop_trailing_spaces(&mut line);
        if r > 0 {
            push_char(&mut out, '\n');
        }
        let ghost before_out = out@;
        let text = string_from_chars(line.as_slice());
        out.append(text.as_str());
        proof {
            assert(lines[r as int] == line@);
            lemma_join_step(lines, '\n', r + 1);
            assert(out@ =~= join(lines.subrange(0, r + 1), '\n'));
        }
        r = r + 1;
    }
    assert(lines.subrange(0, nrows as int) =~= lines);
    out
}

} // verus!
