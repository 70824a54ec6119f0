//! Assembly of recognized fragments into text: the fragments of one line,
//! a line laid out at character columns, and vertical columns read right to
//! left. Where fragments sit on the page is decided by the caller.
use vstd::prelude::*;

use crate::layout::{join, spaces};
use crate::numbering::{is_ascii_alnum, needs_space_between};
use crate::text::{chars_of, string_from_chars, trim, trim_chars, trim_end, trim_end_chars};

verus! {

broadcast use vstd::string::group_string_axioms;

/// A recognised region is kept when its text, trimmed of whitespace, is not
/// empty.
pub fn is_kept_region_text(text: &str) -> (keep: bool)
    ensures
        keep == (trim(text@).len() > 0),
{
    let chars = chars_of(text);
    let trimmed = trim_chars(chars.as_slice());
    trimmed.len() > 0
}

/// Whether two fragments need a space between them (see `needs_space_between`).
pub open spec fn space_needed(left: Seq<char>, right: Seq<char>) -> bool {
    left.len() > 0 && right.len() > 0 && is_ascii_alnum(left.last()) && is_ascii_alnum(right[0])
}

/// The first `k` fragments of a line joined: each fragment trimmed; a space
/// goes before fragment `i > 0` when the gap before it is wide, the two raw
/// fragments meet with letters or digits, and the text so far does not end
/// in a space.
pub open spec fn joined_line(texts: Seq<Seq<char>>, wide_gaps: Seq<bool>, k: int) -> Seq<char>
    decreases k,
{
    if k <= 0 {
        seq![]
    } else {
        let prev = joined_line(texts, wide_gaps, k - 1);
        let sep = if k - 1 > 0 && wide_gaps[k - 1] && space_needed(texts[k - 2], texts[k - 1]) && !(
        prev.len() > 0 && prev.last() == ' ') {
            seq![' ']
        } else {
            seq![]
        };
        prev + sep + trim(texts[k - 1])
    }
}

/// Joins the fragments of one line, left to right; `wide_gaps[i]` tells
/// whether the gap before fragment `i` is wider than 0.7 of the fragments'
/// mean height.
pub fn join_line_texts(texts: &[String], wide_gaps: &[bool]) -> (text: String)
    requires
        wide_gaps@.len() == texts@.len(),
    ensures
        text@ == joined_line(
            texts@.map_values(|t: String| t@),
            wide_gaps@,
            texts@.len() as int,
        ),
{
    let ghost views = texts@.map_values(|t: String| t@);
    let mut out: Vec<char> = Vec::new();
    let mut i: usize = 0;
    while i < texts.len()
        invariant
            i <= texts@.len(),
            wide_gaps@.len() == texts@.len(),
            views == texts@.map_values(|t: String| t@),
            out@ == joined_line(views, wide_gaps@, i as int),
        decreases texts@.len() - i,
    {
        if i > 0 && wide_gaps[i] && needs_space_between(texts[i - 1].as_str(), texts[i].as_str())
            && !(out.len() > 0 && out[out.len() - 1] == ' ') {
            out.push(' ');
        }
        let piece = chars_of(texts[i].as_str());
        let trimmed = trim_chars(piece.as_slice());
        let mut k: usize = 0;
        let ghost head = out@;
        while k < trimmed.len()
            invariant
                k <= trimmed@.len(),
                out@ == head + trimmed@.subrange(0, k as int),
            decreases trimmed@.len() - k,
        {
            out.push(trimmed[k]);
            k = k + 1;
            assert(out@ =~= head + trimmed@.subrange(0, k as int));
        }
        assert(trimmed@.subrange(0, trimmed@.len() as int) =~= trimmed@);
        proof {
            assert(views[i as int] == texts@[i as int]@);
            if i > 0 {
                assert(views[i - 1] == texts@[i - 1]@);
            }
        }
        i = i + 1;
    }
    string_from_chars(out.as_slice())
}

/// The first `k` fragments of a line laid out at character columns: the
/// text is padded with spaces up to the fragment's column, or, when it has
/// already passed it, separated by one space unless it ends in one; each
/// fragment is trimmed.
pub open spec fn laid_out(columns: Seq<usize>, texts: Seq<Seq<char>>, k: int) -> Seq<char>
    decreases k,
{
    if k <= 0 {
        seq![]
    } else {
        let prev = laid_out(columns, texts, k - 1);
        let target = columns[k - 1] as int;
        let pad = if target > prev.len() {
            spaces(target - prev.len())
        } else if prev.len() > 0 && prev.last() != ' ' {
            seq![' ']
        } else {
            seq![]
        };
        prev + pad + trim(texts[k - 1])
    }
}

/// Where fragment `k` goes: the text laid out so far is kept, the trimmed
/// fragment follows it after a gap of spaces only, and the gap is
/// - exactly what brings the fragment to its column, when the text so far
///   ends before that column;
/// - one space, when the text so far reaches or passes the column, is not
///   empty and does not end in a space, so fragments never run together;
/// - nothing otherwise.
pub proof fn lemma_fragment_placement(columns: Seq<usize>, texts: Seq<Seq<char>>, k: int)
    requires
        0 <= k < texts.len(),
        columns.len() == texts.len(),
    ensures
        ({
            let prev = laid_out(columns, texts, k);
            let next = laid_out(columns, texts, k + 1);
            let frag = trim(texts[k]);
            let gap = next.len() - prev.len() - frag.len();
            &&& gap >= 0
            &&& next.subrange(0, prev.len() as int) == prev
            &&& next.subrange(next.len() - frag.len(), next.len() as int) == frag
            &&& forall|i: int| prev.len() <= i < prev.len() + gap ==> next[i] == ' '
            &&& prev.len() < columns[k] ==> prev.len() + gap == columns[k]
            &&& prev.len() >= columns[k] && prev.len() > 0 && prev.last() != ' ' ==> gap == 1
            &&& prev.len() >= columns[k] && (prev.len() == 0 || prev.last() == ' ') ==> gap == 0
        }),
{
    let prev = laid_out(columns, texts, k);
    let next = laid_out(columns, texts, k + 1);
    let frag = trim(texts[k]);
    let target = columns[k] as int;
    let filler = if target > prev.len() {
        spaces(target - prev.len())
    } else if prev.len() > 0 && prev.last() != ' ' {
        seq![' ']
    } else {
        seq![]
    };
    assert(next == prev + filler + frag);
    assert(next.subrange(0, prev.len() as int) =~= prev);
    assert(next.subrange(next.len() - frag.len(), next.len() as int) =~= frag);
    assert forall|i: int| prev.len() <= i < prev.len() + filler.len() implies next[i] == ' ' by {
        assert(next[i] == filler[i - prev.len()]);
    }
}

/// Lays out the fragments of one line at their character columns (left to
/// right) and drops the trailing whitespace.
pub fn spatial_line(columns: &[usize], texts: &[String]) -> (line: String)
    requires
        columns@.len() == texts@.len(),
    ensures
        line@ == trim_end(laid_out(columns@, texts@.map_values(|t: String| t@), texts@.len() as int)),
{
    let ghost views = texts@.map_values(|t: String| t@);
    let mut out: Vec<char> = Vec::new();
    let mut i: usize = 0;
    while i < texts.len()
        invariant
            i <= texts@.len(),
            columns@.len() == texts@.len(),
            views == texts@.map_values(|t: String| t@),
            out@ == laid_out(columns@, views, i as int),
        decreases texts@.len() - i,
    {
        let target = columns[i];
        let ghost prev = out@;
        if target > out.len() {
            let pad = target - out.len();
            let mut k: usize = 0;
            while k < pad
                invariant
                    k <= pad,
                    out@ == prev + spaces(k as int),
                decreases pad - k,
            {
                out.push(' ');
                k = k + 1;
                assert(out@ =~= prev + spaces(k as int));
            }
        } else if out.len() > 0 && out[out.len() - 1] != ' ' {
            out.push(' ');
        }
        let ghost padded = out@;
        let piece = chars_of(texts[i].as_str());
        let trimmed = trim_chars(piece.as_slice());
        let mut k: usize = 0;
        while k < trimmed.len()
            invariant
                k <= trimmed@.len(),
                out@ == padded + trimmed@.subrange(0, k as int),
            decreases trimmed@.len() - k,
        {
            out.push(trimmed[k]);
            k = k + 1;
            assert(out@ =~= padded + trimmed@.subrange(0, k as int));
        }
        assert(trimmed@.subrange(0, trimmed@.len() as int) =~= trimmed@);
        proof {
            assert(views[i as int] == texts@[i as int]@);
            let pad = if target as int > prev.len() {
                spaces(target - prev.len())
            } else if prev.len() > 0 && prev.last() != ' ' {
                seq![' ']
            } else {
                seq![]
            };
            assert(padded =~= prev + pad);
        }
        i = i + 1;
    }
    let trimmed = trim_end_chars(out.as_slice());
    string_from_chars(trimmed.as_slice())
}

/// One column of vertical text: its fragments, trimmed, without separators.
pub open spec fn column_text(col: Seq<Seq<char>>) -> Seq<char>
    decreases col.len(),
{
    if col.len() == 0 {
        seq![]
    } else {
        column_text(col.drop_last()) + trim(col.last())
    }
}

/// Vertical text: each column (already ordered right to left, fragments
/// top to bottom) becomes one line.
pub open spec fn vertical_text(cols: Seq<Seq<Seq<char>>>) -> Seq<char> {
    join(Seq::new(cols.len(), |i: int| column_text(cols[i])), '\n')
}

/// The text of one column.
fn column_chars(col: &Vec<String>) -> (v: Vec<char>)
    ensures
        v@ == column_text(col@.map_values(|t: String| t@)),
{
    let ghost views = col@.map_values(|t: String| t@);
    let mut out: Vec<char> = Vec::new();
    let mut i: usize = 0;
    while i < col.len()
        invariant
            i <= col@.len(),
            views == col@.map_values(|t: String| t@),
            out@ == column_text(views.subrange(0, i as int)),
        decreases col@.len() - i,
    {
        let piece = chars_of(col[i].as_str());
        let trimmed = trim_chars(piece.as_slice());
        let ghost head = out@;
        let mut k: usize = 0;
        while k < trimmed.len()
            invariant
                k <= trimmed@.len(),
                out@ == head + trimmed@.subrange(0, k as int),
            decreases trimmed@.len() - k,
        {
            out.push(trimmed[k]);
            k = k + 1;
            assert(out@ =~= head + trimmed@.subrange(0, k as int));
        }
        assert(trimmed@.subrange(0, trimmed@.len() as int) =~= trimmed@);
        proof {
            let pre = views.subrange(0, i + 1);
            assert(pre.drop_last() =~= views.subrange(0, i as int));
            assert(pre.last() == col@[i as int]@);
        }
        i = i + 1;
    }
    assert(views.subrange(0, views.len() as int) =~= views);
    out
}

/// Joins vertical columns into text, one line per column.
pub fn join_vertical_columns(columns: &[Vec<String>]) -> (text: String)
    ensures
        text@ == vertical_text(columns@.map_values(|c: Vec<String>| c@.map_values(|t: String| t@))),
{
    let ghost cols = columns@.map_values(|c: Vec<String>| c@.map_values(|t: String| t@));
    let ghost parts = Seq::new(cols.len(), |i: int| column_text(cols[i]));
    let mut out: Vec<char> = Vec::new();
    let mut i: usize = 0;
    while i < columns.len()
        invariant
            i <= columns@.len(),
            cols == columns@.map_values(|c: Vec<String>| c@.map_values(|t: String| t@)),
            parts == Seq::new(cols.len(), |i: int| column_text(cols[i])),
            out@ == join(parts.subrange(0, i as int), '\n'),
        decreases columns@.len() - i,
    {
        let ghost prev = out@;
        if i > 0 {
            out.push('\n');
        }
        let col = column_chars(&columns[i]);
        let ghost sep_added = out@;
        let mut k: usize = 0;
        while k < col.len()
            invariant
                k <= col@.len(),
                out@ == sep_added + col@.subrange(0, k as int),
            decreases col@.len() - k,
        {
            out.push(col[k]);
            k = k + 1;
            assert(out@ =~= sep_added + col@.subrange(0, k as int));
        }
        assert(col@.subrange(0, col@.len() as int) =~= col@);
        proof {
            assert(cols[i as int] == columns@[i as int]@.map_values(|t: String| t@));
            assert(parts[i as int] == col@);
            let pre = parts.subrange(0, i + 1);
            assert(pre.drop_last() =~= parts.subrange(0, i as int));
            if i == 0 {
                assert(out@ =~= pre[0]);
            } else {
                assert(out@ =~= join(pre.drop_last(), '\n').push('\n') + pre.last());
            }
        }
        i = i + 1;
    }
    assert(parts.subrange(0, parts.len() as int) =~= parts);
    string_from_chars(out.as_slice())
}

/// The cells of one table row after its first `k` fragments: each
/// fragment, trimmed, goes to its column; fragments of one cell are joined
/// by a space.
pub open spec fn row_cells(columns: Seq<usize>, texts: Seq<Seq<char>>, column_count: nat, k: int) -> Seq<
    Seq<char>,
>
    decreases k,
{
    if k <= 0 {
        Seq::new(column_count, |j: int| Seq::<char>::empty())
    } else {
        let prev = row_cells(columns, texts, column_count, k - 1);
        let c = columns[k - 1] as int;
        let t = trim(texts[k - 1]);
        prev.update(
            c,
            if prev[c].len() == 0 {
                t
            } else {
                prev[c] + seq![' '] + t
            },
        )
    }
}

proof fn lemma_row_cells_len(columns: Seq<usize>, texts: Seq<Seq<char>>, column_count: nat, k: int)
    requires
        0 <= k <= columns.len(),
        forall|i: int| 0 <= i < columns.len() ==> #[trigger] columns[i] < column_count,
    ensures
        row_cells(columns, texts, column_count, k).len() == column_count,
    decreases k,
{
    if k > 0 {
        lemma_row_cells_len(columns, texts, column_count, k - 1);
    }
}

/// Fills the cells of one table row from its fragments (left to right) and
/// the column each fragment belongs to.
pub fn table_row_cells(columns: &[usize], texts: &[String], column_count: usize) -> (cells: Vec<
    String,
>)
    requires
        columns@.len() == texts@.len(),
        forall|i: int| 0 <= i < columns@.len() ==> #[trigger] columns@[i] < column_count,
    ensures
        cells@.map_values(|c: String| c@) == row_cells(
            columns@,
            texts@.map_values(|t: String| t@),
            column_count as nat,
            texts@.len() as int,
        ),
{
    let ghost views = texts@.map_values(|t: String| t@);
    let mut cells: Vec<Vec<char>> = Vec::new();
    let mut j: usize = 0;
    while j < column_count
        invariant
            j <= column_count,
            cells@.len() == j,
            forall|q: int| 0 <= q < j ==> (#[trigger] cells@[q])@.len() == 0,
        decreases column_count - j,
    {
        cells.push(Vec::new());
        j = j + 1;
    }
    proof {
        assert forall|q: int| 0 <= q < cells@.len() implies (#[trigger] cells@[q])@ =~= Seq::<
            char,
        >::empty() by {}
        assert(cells@.map_values(|c: Vec<char>| c@) =~= row_cells(columns@, views, column_count as nat, 0));
    }
    let mut i: usize = 0;
    while i < texts.len()
        invariant
            i <= texts@.len(),
            columns@.len() == texts@.len(),
            views == texts@.map_values(|t: String| t@),
            forall|q: int| 0 <= q < columns@.len() ==> #[trigger] columns@[q] < column_count,
            cells@.len() == column_count,
            cells@.map_values(|c: Vec<char>| c@) == row_cells(columns@, views, column_count as nat, i as int),
        decreases texts@.len() - i,
    {
        proof {
            lemma_row_cells_len(columns@, views, column_count as nat, i as int);
        }
        let c = columns[i];
        let piece = chars_of(texts[i].as_str());
        let trimmed = trim_chars(piece.as_slice());
        let mut cell: Vec<char> = Vec::new();
        let mut k: usize = 0;
        while k < cells[c].len()
            invariant
                k <= cells@[c as int]@.len(),
                c < cells@.len(),
                cell@ == cells@[c as int]@.subrange(0, k as int),
            decreases cells@[c as int]@.len() - k,
        {
            cell.push(cells[c][k]);
            k = k + 1;
        }
        assert(cells@[c as int]@.subrange(0, cells@[c as int]@.len() as int) =~= cells@[c as int]@);
        let ghost old_cell = cell@;
        if cell.len() > 0 {
            cell.push(' ');
        }
        let ghost sep = cell@;
        let mut k: usize = 0;
        while k < trimmed.len()
            invariant
                k <= trimmed@.len(),
                cell@ == sep + trimmed@.subrange(0, k as int),
            decreases trimmed@.len() - k,
        {
            cell.push(trimmed[k]);
            k = k + 1;
            assert(cell@ =~= sep + trimmed@.subrange(0, k as int));
        }
        assert(trimmed@.subrange(0, trimmed@.len() as int) =~= trimmed@);
        let ghost before = cells@;
        cells.set(c, cell);
        proof {
            assert(views[i as int] == texts@[i as int]@);
            let prev = row_cells(columns@, views, column_count as nat, i as int);
            assert(prev[c as int] == old_cell);
            if old_cell.len() == 0 {
                assert(cell@ =~= trim(views[i as int]));
            } else {
                assert(cell@ =~= old_cell + seq![' '] + trim(views[i as int]));
            }
            assert(cells@.map_values(|c: Vec<char>| c@) =~= row_cells(
                columns@,
                views,
                column_count as nat,
                i + 1,
            ));
        }
        i = i + 1;
    }
    let mut out: Vec<String> = Vec::new();
    let mut q: usize = 0;
    while q < cells.len()
        invariant
            q <= cells@.len(),
            out@.len() == q,
            forall|r: int| 0 <= r < q ==> (#[trigger] out@[r])@ == cells@[r]@,
        decreases cells@.len() - q,
    {
        out.push(string_from_chars(cells[q].as_slice()));
        q = q + 1;
    }
    assert(out@.map_values(|c: String| c@) =~= cells@.map_values(|c: Vec<char>| c@));
    out
}

} // verus!
