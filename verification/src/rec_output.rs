//! Interpretation of model output tensors: spatial sizes of detection maps
//! and the layout of recognition outputs, which come either time-major
//! (`[T, C]`) or class-major (`[C, T]`). The element type is left open; the
//! logic only moves elements.
use vstd::prelude::*;

use crate::naming::u64_decimal;
use crate::text::{decimal, string_from_chars};

verus! {

broadcast use vstd::string::group_string_axioms;

/// Height and width of a map of the given shape: the last two of
/// `[N, C, H, W]`, `[N, H, W]` or `[H, W]`, the fallbacks for other ranks.
pub fn extract_spatial_dims(shape: &[usize], fallback_h: usize, fallback_w: usize) -> (dims: (
    usize,
    usize,
))
    ensures
        shape@.len() == 4 ==> dims == (shape@[2], shape@[3]),
        shape@.len() == 3 ==> dims == (shape@[1], shape@[2]),
        shape@.len() == 2 ==> dims == (shape@[0], shape@[1]),
        (shape@.len() < 2 || shape@.len() > 4) ==> dims == (fallback_h, fallback_w),
{
    if shape.len() == 4 {
        (shape[2], shape[3])
    } else if shape.len() == 3 {
        (shape[1], shape[2])
    } else if shape.len() == 2 {
        (shape[0], shape[1])
    } else {
        (fallback_h, fallback_w)
    }
}

/// Index of element `(c, t)` in a class-major buffer with `steps` time steps.
proof fn lemma_grid_index(c: int, t: int, rows: int, cols: int)
    requires
        0 <= c < rows,
        0 <= t < cols,
    ensures
        0 <= c * cols + t < rows * cols,
        0 <= t * rows + c < rows * cols,
{
    assert(c * cols <= (rows - 1) * cols) by (nonlinear_arith)
        requires
            c <= rows - 1,
            cols >= 0,
    ;
    assert((rows - 1) * cols == rows * cols - cols) by (nonlinear_arith);
    assert(t * rows <= (cols - 1) * rows) by (nonlinear_arith)
        requires
            t <= cols - 1,
            rows >= 0,
    ;
    assert((cols - 1) * rows == rows * cols - rows) by (nonlinear_arith);
    assert(0 <= c * cols) by (nonlinear_arith)
        requires
            c >= 0,
            cols >= 0,
    ;
    assert(0 <= t * rows) by (nonlinear_arith)
        requires
            t >= 0,
            rows >= 0,
    ;
}

/// Reorders the first `classes * time_steps` values, a class-major grid
/// (`classes` rows of `time_steps`), into a time-major one.
fn transpose_grid<T: Copy>(values: &[T], classes: usize, time_steps: usize) -> (out: Vec<T>)
    requires
        values@.len() >= classes * time_steps,
    ensures
        out@.len() == classes * time_steps,
        forall|t: int, c: int|
            0 <= t < time_steps && 0 <= c < classes ==> #[trigger] out@[t * classes + c] == values@[c
                * time_steps + t],
{
    let n = values.len();
    let mut out: Vec<T> = Vec::new();
    let mut t: usize = 0;
    while t < time_steps
        invariant
            t <= time_steps,
            n == values@.len(),
            values@.len() >= classes * time_steps,
            out@.len() == t * classes,
            forall|tt: int, c: int|
                0 <= tt < t && 0 <= c < classes ==> #[trigger] out@[tt * classes + c] == values@[c
                    * time_steps + tt],
        decreases time_steps - t,
    {
        let mut c: usize = 0;
        while c < classes
            invariant
                c <= classes,
                t < time_steps,
                n == values@.len(),
                values@.len() >= classes * time_steps,
                out@.len() == t * classes + c,
                forall|tt: int, cc: int|
                    0 <= tt < t && 0 <= cc < classes ==> #[trigger] out@[tt * classes + cc]
                        == values@[cc * time_steps + tt],
                forall|cc: int| 0 <= cc < c ==> #[trigger] out@[t * classes + cc] == values@[cc
                    * time_steps + t],
            decreases classes - c,
        {
            proof {
                lemma_grid_index(c as int, t as int, classes as int, time_steps as int);
            }
            let idx = c * time_steps + t;
            let ghost before = out@;
            out.push(values[idx]);
            proof {
                assert forall|tt: int, cc: int|
                    0 <= tt < t && 0 <= cc < classes implies #[trigger] out@[tt * classes + cc]
                    == values@[cc * time_steps + tt] by {
                    lemma_row_before(tt, cc, t as int, classes as int);
                    assert(out@[tt * classes + cc] == before[tt * classes + cc]);
                }
                assert forall|cc: int| 0 <= cc < c + 1 implies #[trigger] out@[t * classes + cc]
                    == values@[cc * time_steps + t] by {
                    if cc < c {
                        assert(out@[t * classes + cc] == before[t * classes + cc]);
                    }
                }
            }
            c = c + 1;
        }
        proof {
            assert((t + 1) * classes == t * classes + classes) by (nonlinear_arith);
            assert forall|tt: int, cc: int|
                0 <= tt < t + 1 && 0 <= cc < classes implies #[trigger] out@[tt * classes + cc]
                == values@[cc * time_steps + tt] by {
                if tt == t {
                    assert(out@[t * classes + cc] == values@[cc * time_steps + t]);
                }
            }
        }
        t = t + 1;
    }
    proof {
        assert(time_steps * classes == classes * time_steps) by (nonlinear_arith);
    }
    out
}

/// Reorders a class-major buffer (`classes` rows of `time_steps`) into a
/// time-major one of the same length; positions past the grid hold `fill`.
pub fn transpose_ct_to_tc<T: Copy>(values: &[T], classes: usize, time_steps: usize, fill: T) -> (out:
    Vec<T>)
    requires
        values@.len() >= classes * time_steps,
    ensures
        out@.len() == values@.len(),
        forall|t: int, c: int|
            0 <= t < time_steps && 0 <= c < classes ==> #[trigger] out@[t * classes + c] == values@[c
                * time_steps + t],
        forall|k: int| classes * time_steps <= k < values@.len() ==> #[trigger] out@[k] == fill,
{
    let mut out = transpose_grid(values, classes, time_steps);
    let grid = out.len();
    let ghost body = out@;
    while out.len() < values.len()
        invariant
            grid == classes * time_steps,
            grid <= out@.len() <= values@.len(),
            out@.subrange(0, grid as int) == body,
            forall|k: int| grid <= k < out@.len() ==> #[trigger] out@[k] == fill,
        decreases values@.len() - out@.len(),
    {
        out.push(fill);
    }
    proof {
        assert forall|t: int, c: int|
            0 <= t < time_steps && 0 <= c < classes implies #[trigger] out@[t * classes + c]
            == values@[c * time_steps + t] by {
            lemma_row_before(t, c, time_steps as int, classes as int);
            assert(time_steps * classes == classes * time_steps) by (nonlinear_arith);
            assert(out@[t * classes + c] == body[t * classes + c]);
        }
    }
    out
}

/// An element of an earlier time step lies before the current one.
proof fn lemma_row_before(tt: int, cc: int, t: int, classes: int)
    requires
        0 <= tt < t,
        0 <= cc < classes,
    ensures
        0 <= tt * classes + cc < t * classes,
{
    assert(tt * classes + classes <= t * classes) by (nonlinear_arith)
        requires
            tt + 1 <= t,
            classes >= 0,
    ;
    assert(0 <= tt * classes) by (nonlinear_arith)
        requires
            tt >= 0,
            classes >= 0,
    ;
}

/// A shape as Rust's `{:?}` writes a slice of sizes: `[1, 2, 3]`.
pub open spec fn shape_text(s: Seq<usize>) -> Seq<char>
    decreases s.len(),
{
    if s.len() == 0 {
        "[]"@
    } else {
        shape_items(s) + "]"@
    }
}

/// `[` followed by the sizes separated by `, `.
pub open spec fn shape_items(s: Seq<usize>) -> Seq<char>
    decreases s.len(),
{
    if s.len() == 0 {
        "["@
    } else if s.len() == 1 {
        "["@ + decimal(s[0] as nat)
    } else {
        shape_items(s.drop_last()) + ", "@ + decimal(s.last() as nat)
    }
}

fn push_str(out: &mut String, s: &str)
    ensures
        final(out)@ == old(out)@ + s@,
{
    out.append(s);
}

fn number_text(n: usize) -> (s: String)
    ensures
        s@ == decimal(n as nat),
{
    let v = u64_decimal(n as u64);
    string_from_chars(v.as_slice())
}

/// Writes a shape as `{:?}` does.
pub fn format_shape(shape: &[usize]) -> (s: String)
    ensures
        s@ == shape_text(shape@),
{
    if shape.len() == 0 {
        return String::from_str("[]");
    }
    let mut out = String::from_str("[");
    let mut i: usize = 0;
    while i < shape.len()
        invariant
            i <= shape@.len(),
            shape@.len() > 0,
            out@ == shape_items(shape@.subrange(0, i as int)),
        decreases shape@.len() - i,
    {
        let ghost pre = shape@.subrange(0, i + 1);
        assert(pre.drop_last() =~= shape@.subrange(0, i as int));
        if i > 0 {
            push_str(&mut out, ", ");
        } else {
            assert(shape@.subrange(0, 0) =~= Seq::<usize>::empty());
        }
        let n = number_text(shape[i]);
        push_str(&mut out, n.as_str());
        i = i + 1;
    }
    assert(shape@.subrange(0, shape@.len() as int) =~= shape@);
    push_str(&mut out, "]");
    out
}

/// Whether a recognition output of `rows x cols` is class-major: the
/// columns are fewer than the rows and are not the dictionary's classes.
pub open spec fn is_class_major(rows: usize, cols: usize, dict_classes: usize) -> bool {
    !(cols >= rows || cols == dict_classes)
}

/// Brings one recognition output into time-major order and tells its class
/// count. Shapes `[1, R, C]` and `[R, C]` are accepted. A time-major buffer
/// comes back as it is; a class-major one is transposed, and whatever lies
/// past its `R x C` grid is replaced by `fill`.
pub fn normalize_rec_output<T: Copy>(flat: Vec<T>, shape: &[usize], dict_classes: usize, fill: T) -> (r:
    Result<(Vec<T>, usize), String>)
    requires
        (shape@.len() == 3 && shape@[0] == 1) || shape@.len() == 2 ==> (is_class_major(
            shape@[shape@.len() - 2],
            shape@[shape@.len() - 1],
            dict_classes,
        ) ==> flat@.len() >= shape@[shape@.len() - 2] * shape@[shape@.len() - 1]),
    ensures
        match r {
            Err(msg) => !(shape@.len() == 3 && shape@[0] == 1) && shape@.len() != 2 && msg@
                == "识别模型输出形状不支持: "@ + shape_text(shape@),
            Ok((data, classes)) => {
                let rows = shape@[shape@.len() - 2];
                let cols = shape@[shape@.len() - 1];
                &&& ((shape@.len() == 3 && shape@[0] == 1) || shape@.len() == 2)
                &&& !is_class_major(rows, cols, dict_classes) ==> data@ == flat@ && classes == cols
                &&& is_class_major(rows, cols, dict_classes) ==> {
                    &&& classes == rows
                    &&& data@.len() == flat@.len()
                    &&& forall|t: int, c: int|
                        0 <= t < cols && 0 <= c < rows ==> #[trigger] data@[t * rows + c]
                            == flat@[c * cols + t]
                    &&& forall|k: int| rows * cols <= k < flat@.len() ==> #[trigger] data@[k] == fill
                }
            },
        },
{
    let (rows, cols) = if shape.len() == 3 && shape[0] == 1 {
        (shape[1], shape[2])
    } else if shape.len() == 2 {
        (shape[0], shape[1])
    } else {
        let text = format_shape(shape);
        let mut msg = String::from_str("识别模型输出形状不支持: ");
        push_str(&mut msg, text.as_str());
        return Err(msg);
    };
    if cols >= rows || cols == dict_classes {
        Ok((flat, cols))
    } else {
        let transposed = transpose_ct_to_tc(flat.as_slice(), rows, cols, fill);
        Ok((transposed, rows))
    }
}

/// Splits a batch of recognition outputs `[N, R, C]` (or `[R, C]` for a
/// batch of one) into time-major samples with their class counts.
pub fn split_batched_rec_output<T: Copy>(
    flat: &[T],
    shape: &[usize],
    batch_size: usize,
    dict_classes: usize,
) -> (r: Result<Vec<(Vec<T>, usize)>, String>)
    requires
        shape@.len() >= 2 ==> shape@[shape@.len() - 2] * shape@[shape@.len() - 1] * batch_size
            <= usize::MAX,
    ensures
        match r {
            Err(msg) => {
                ||| (!(shape@.len() == 3 && shape@[0] == batch_size) && !(shape@.len() == 2
                    && batch_size == 1) && msg@ == "识别模型批量输出形状不支持: "@ + shape_text(
                    shape@,
                ) + ", batch="@ + decimal(batch_size as nat))
                ||| (((shape@.len() == 3 && shape@[0] == batch_size) || (shape@.len() == 2
                    && batch_size == 1)) && flat@.len() < batch_size * shape@[shape@.len() - 2]
                    * shape@[shape@.len() - 1] && msg@ == "识别模型批量输出数据不足: len="@
                    + decimal(flat@.len()) + ", required="@ + decimal(
                    (batch_size * shape@[shape@.len() - 2] * shape@[shape@.len() - 1]) as nat,
                ) + ", shape="@ + shape_text(shape@))
            },
            Ok(samples) => {
                let rows = shape@[shape@.len() - 2];
                let cols = shape@[shape@.len() - 1];
                let len = rows * cols;
                &&& ((shape@.len() == 3 && shape@[0] == batch_size) || (shape@.len() == 2
                    && batch_size == 1))
                &&& flat@.len() >= batch_size * len
                &&& samples@.len() == batch_size
                &&& forall|b: int|
                    0 <= b < batch_size ==> {
                        let slice = flat@.subrange(b * len, b * len + len);
                        let (data, classes) = #[trigger] samples@[b];
                        if is_class_major(rows, cols, dict_classes) {
                            &&& classes == rows
                            &&& data@.len() == len
                            &&& forall|t: int, c: int|
                                0 <= t < cols && 0 <= c < rows ==> #[trigger] data@[t * rows + c]
                                    == slice[c * cols + t]
                        } else {
                            classes == cols && data@ == slice
                        }
                    }
            },
        },
{
    let (rows, cols) = if shape.len() == 3 && shape[0] == batch_size {
        (shape[1], shape[2])
    } else if shape.len() == 2 && batch_size == 1 {
        (shape[0], shape[1])
    } else {
        let mut msg = String::from_str("识别模型批量输出形状不支持: ");
        push_str(&mut msg, format_shape(shape).as_str());
        push_str(&mut msg, ", batch=");
        push_str(&mut msg, number_text(batch_size).as_str());
        return Err(msg);
    };
    proof {
        assert(rows * cols <= rows * cols * batch_size || batch_size == 0) by (nonlinear_arith)
            requires
                rows >= 0,
                cols >= 0,
                batch_size >= 0,
        ;
        assert(batch_size * (rows * cols) == rows * cols * batch_size) by (nonlinear_arith);
        if batch_size == 0 {
            assert(rows * cols * batch_size == 0) by (nonlinear_arith)
                requires
                    batch_size == 0,
            ;
        }
    }
    let sample_len: usize = if batch_size == 0 {
        0
    } else {
        rows * cols
    };
    let required: usize = batch_size * sample_len;
    proof {
        if batch_size == 0 {
            assert(batch_size * rows * cols == 0) by (nonlinear_arith)
                requires
                    batch_size == 0,
            ;
        } else {
            assert(batch_size * (rows * cols) == batch_size * rows * cols) by (nonlinear_arith);
        }
    }
    if flat.len() < required {
        let mut msg = String::from_str("识别模型批量输出数据不足: len=");
        push_str(&mut msg, number_text(flat.len()).as_str());
        push_str(&mut msg, ", required=");
        push_str(&mut msg, number_text(required).as_str());
        push_str(&mut msg, ", shape=");
        push_str(&mut msg, format_shape(shape).as_str());
        return Err(msg);
    }
    let class_major = !(cols >= rows || cols == dict_classes);
    let ghost len: int = rows * cols;
    let mut samples: Vec<(Vec<T>, usize)> = Vec::new();
    let mut b: usize = 0;
    while b < batch_size
        invariant
            b <= batch_size,
            batch_size > 0 ==> sample_len == rows * cols,
            len == rows * cols,
            required == batch_size * sample_len,
            flat@.len() >= required,
            class_major == is_class_major(rows, cols, dict_classes),
            samples@.len() == b,
            forall|k: int|
                0 <= k < b ==> {
                    let slice = flat@.subrange(k * len, k * len + len);
                    let (data, classes) = #[trigger] samples@[k];
                    if class_major {
                        &&& classes == rows
                        &&& data@.len() == len
                        &&& forall|t: int, c: int|
                            0 <= t < cols && 0 <= c < rows ==> #[trigger] data@[t * rows + c]
                                == slice[c * cols + t]
                    } else {
                        classes == cols && data@ == slice
                    }
                },
        decreases batch_size - b,
    {
        proof {
            assert(b * sample_len + sample_len <= batch_size * sample_len) by (nonlinear_arith)
                requires
                    b + 1 <= batch_size,
                    sample_len >= 0,
            ;
        }
        let offset: usize = b * sample_len;
        let flen = flat.len();
        let mut slice: Vec<T> = Vec::new();
        let mut k: usize = 0;
        while k < sample_len
            invariant
                k <= sample_len,
                flen == flat@.len(),
                offset + sample_len <= flat@.len(),
                slice@ == flat@.subrange(offset as int, offset + k),
            decreases sample_len - k,
        {
            slice.push(flat[offset + k]);
            k = k + 1;
        }
        let ghost view = slice@;
        if class_major {
            let data = transpose_grid(slice.as_slice(), rows, cols);
            samples.push((data, rows));
        } else {
            samples.push((slice, cols));
        }
        proof {
            assert(offset == b * len);
            assert(view =~= flat@.subrange(b * len, b * len + len));
        }
        b = b + 1;
    }
    Ok(samples)
}

/// The class count of a batched output `[N, A, B]`: the larger of `A` and
/// `B` (time-major when `B >= A`).
pub open spec fn batched_classes(dims: Seq<usize>) -> usize {
    if dims[2] >= dims[1] {
        dims[2]
    } else {
        dims[1]
    }
}

/// Checks the output `[N, A, B]` of one batched recognizer run and cuts it
/// into one time-major sample per crop, with its class count. The output is
/// time-major (`[N, T, C]`) when `B >= A` and class-major otherwise.
pub fn split_batched_probabilities<T: Copy>(
    probabilities: &[T],
    dims: [usize; 3],
    expected_batch: usize,
    dict_classes: usize,
) -> (r: Result<Vec<(Vec<T>, usize)>, String>)
    requires
        dims@[1] * dims@[2] * expected_batch <= usize::MAX,
    ensures
        match r {
            Err(msg) => {
                ||| (dims@[0] != expected_batch && msg@ == "识别模型批量输出 batch 维异常: expected "@
                    + decimal(expected_batch as nat) + ", got "@ + shape_text(dims@))
                ||| (dims@[0] == expected_batch && batched_classes(dims@) < dict_classes && msg@
                    == "识别模型输出类别数少于字典大小: output="@ + shape_text(dims@)
                    + ", dict_classes="@ + decimal(dict_classes as nat))
                ||| (dims@[0] == expected_batch && batched_classes(dims@) >= dict_classes
                    && probabilities@.len() < expected_batch * (dims@[1] * dims@[2]) && msg@
                    == "识别模型输出数据不足: len="@ + decimal(probabilities@.len()) + ", required="@
                    + decimal((expected_batch * (dims@[1] * dims@[2])) as nat) + ", shape="@
                    + shape_text(dims@))
            },
            Ok(samples) => {
                let len = dims@[1] * dims@[2];
                &&& dims@[0] == expected_batch
                &&& batched_classes(dims@) >= dict_classes
                &&& probabilities@.len() >= expected_batch * len
                &&& samples@.len() == expected_batch
                &&& forall|b: int|
                    0 <= b < expected_batch ==> {
                        let slice = probabilities@.subrange(b * len, b * len + len);
                        let (data, classes) = #[trigger] samples@[b];
                        if dims@[2] >= dims@[1] {
                            classes == dims@[2] && data@ == slice
                        } else {
                            &&& classes == dims@[1]
                            &&& data@.len() == len
                            &&& forall|t: int, c: int|
                                0 <= t < dims@[2] && 0 <= c < dims@[1] ==> #[trigger] data@[t
                                    * dims@[1] + c] == slice[c * dims@[2] + t]
                        }
                    }
            },
        },
{
    if dims[0] != expected_batch {
        let mut msg = String::from_str("识别模型批量输出 batch 维异常: expected ");
        push_str(&mut msg, number_text(expected_batch).as_str());
        push_str(&mut msg, ", got ");
        push_str(&mut msg, format_shape(dims.as_slice()).as_str());
        return Err(msg);
    }
    let rows = dims[1];
    let cols = dims[2];
    let time_major = cols >= rows;
    let output_classes = if time_major {
        cols
    } else {
        rows
    };
    if output_classes < dict_classes {
        let mut msg = String::from_str("识别模型输出类别数少于字典大小: output=");
        push_str(&mut msg, format_shape(dims.as_slice()).as_str());
        push_str(&mut msg, ", dict_classes=");
        push_str(&mut msg, number_text(dict_classes).as_str());
        return Err(msg);
    }
    proof {
        assert(expected_batch * (rows * cols) == rows * cols * expected_batch) by (nonlinear_arith);
        assert(expected_batch == 0 || rows * cols <= rows * cols * expected_batch) by (nonlinear_arith)
            requires
                rows >= 0,
                cols >= 0,
                expected_batch >= 0,
        ;
    }
    let sample_len: usize = if expected_batch == 0 {
        0
    } else {
        rows * cols
    };
    let required: usize = expected_batch * sample_len;
    proof {
        if expected_batch == 0 {
            assert(expected_batch * (rows * cols) == 0) by (nonlinear_arith)
                requires
                    expected_batch == 0,
            ;
        }
    }
    if probabilities.len() < required {
        let mut msg = String::from_str("识别模型输出数据不足: len=");
        push_str(&mut msg, number_text(probabilities.len()).as_str());
        push_str(&mut msg, ", required=");
        push_str(&mut msg, number_text(required).as_str());
        push_str(&mut msg, ", shape=");
        push_str(&mut msg, format_shape(dims.as_slice()).as_str());
        return Err(msg);
    }
    let ghost len: int = rows * cols;
    let mut samples: Vec<(Vec<T>, usize)> = Vec::new();
    let mut b: usize = 0;
    while b < expected_batch
        invariant
            b <= expected_batch,
            expected_batch > 0 ==> sample_len == rows * cols,
            len == rows * cols,
            rows == dims@[1],
            cols == dims@[2],
            time_major == (cols >= rows),
            required == expected_batch * sample_len,
            probabilities@.len() >= required,
            samples@.len() == b,
            forall|k: int|
                0 <= k < b ==> {
                    let slice = probabilities@.subrange(k * len, k * len + len);
                    let (data, classes) = #[trigger] samples@[k];
                    if time_major {
                        classes == cols && data@ == slice
                    } else {
                        &&& classes == rows
                        &&& data@.len() == len
                        &&& forall|t: int, c: int|
                            0 <= t < cols && 0 <= c < rows ==> #[trigger] data@[t * rows + c]
                                == slice[c * cols + t]
                    }
                },
        decreases expected_batch - b,
    {
        proof {
            assert(b * sample_len + sample_len <= expected_batch * sample_len) by (nonlinear_arith)
                requires
                    b + 1 <= expected_batch,
                    sample_len >= 0,
            ;
        }
        let offset: usize = b * sample_len;
        let plen = probabilities.len();
        let mut slice: Vec<T> = Vec::new();
        let mut k: usize = 0;
        while k < sample_len
            invariant
                k <= sample_len,
                plen == probabilities@.len(),
                offset + sample_len <= probabilities@.len(),
                slice@ == probabilities@.subrange(offset as int, offset + k),
            decreases sample_len - k,
        {
            slice.push(probabilities[offset + k]);
            k = k + 1;
        }
        let ghost view = slice@;
        if time_major {
            samples.push((slice, cols));
        } else {
            let data = transpose_grid(slice.as_slice(), rows, cols);
            samples.push((data, rows));
        }
        proof {
            assert(offset == b * len);
            assert(view =~= probabilities@.subrange(b * len, b * len + len));
        }
        b = b + 1;
    }
    Ok(samples)
}

} // verus!
