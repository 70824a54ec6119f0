//! Fixing the input shape of an ONNX graph before it is compiled for one
//! input size: the graph's first real input gets the concrete shape, and
//! every other declared shape that still holds a symbolic dimension is
//! dropped so that the compiler infers it again.
//!
//! The graph is described here by what this step reads and writes: value
//! names, whether a value is typed as a tensor, and its declared dimensions.
use vstd::prelude::*;

use crate::session::same_text;

verus! {

/// One declared dimension of a tensor shape.
#[derive(Debug)]
pub enum DimKind {
    Unset,
    Fixed(i64),
    Param(String),
}

/// The declared type of a graph value.
#[derive(Debug)]
pub enum ValueType {
    /// No type is declared.
    Missing,
    /// A type is declared, but it is not a tensor type.
    NotTensor,
    /// A tensor type, with its shape when one is declared.
    Tensor(Option<Vec<DimKind>>),
}

/// A graph input, output or intermediate value.
#[derive(Debug)]
pub struct ValueShape {
    pub name: String,
    pub value_type: ValueType,
}

/// The parts of a graph that the shape fix reads.
#[derive(Debug)]
pub struct GraphShapes {
    pub initializer_names: Vec<String>,
    pub inputs: Vec<ValueShape>,
    pub outputs: Vec<ValueShape>,
    pub value_infos: Vec<ValueShape>,
}

/// What the shape fix changes: the input that gets the concrete shape, and
/// the positions of the values whose declared shape is dropped.
#[derive(Debug)]
pub struct ShapePatch {
    pub input_index: usize,
    pub cleared_inputs: Vec<usize>,
    pub cleared_outputs: Vec<usize>,
    pub cleared_value_infos: Vec<usize>,
}

/// The value declares a tensor shape with at least one symbolic dimension.
pub open spec fn is_dynamic(v: ValueShape) -> bool {
    match v.value_type {
        ValueType::Tensor(Some(dims)) => exists|k: int|
            0 <= k < dims@.len() && (#[trigger] dims@[k]) is Param,
        _ => false,
    }
}

/// `name` is the name of one of the graph's initializers.
pub open spec fn is_initializer(g: GraphShapes, name: Seq<char>) -> bool {
    exists|k: int| 0 <= k < g.initializer_names@.len() && (#[trigger] g.initializer_names@[k])@ == name
}

/// `idx` is the first input that is not an initializer, or the first input
/// when all of them are.
pub open spec fn is_chosen_input(g: GraphShapes, idx: int) -> bool {
    &&& 0 <= idx < g.inputs@.len()
    &&& forall|j: int| 0 <= j < idx ==> is_initializer(g, (#[trigger] g.inputs@[j]).name@)
    &&& (!is_initializer(g, g.inputs@[idx].name@) || (idx == 0 && forall|j: int|
        0 <= j < g.inputs@.len() ==> is_initializer(g, (#[trigger] g.inputs@[j]).name@)))
}

/// `list` names, in increasing order, exactly the positions below `len`
/// that satisfy `pred`.
pub open spec fn lists_exactly(list: Seq<usize>, len: int, pred: spec_fn(int) -> bool) -> bool {
    &&& forall|p: int, q: int| 0 <= p < q < list.len() ==> #[trigger] list[p] < #[trigger] list[q]
    &&& forall|p: int| 0 <= p < list.len() ==> #[trigger] list[p] < len && pred(list[p] as int)
    &&& forall|i: usize| i < len && pred(i as int) ==> #[trigger] list.contains(i)
}

/// A value is dropped when it is dynamic, is not the position `skip_index`
/// and does not carry the name `skip_name`.
pub open spec fn is_cleared(
    values: Seq<ValueShape>,
    i: int,
    skip_index: Option<usize>,
    skip_name: Option<Seq<char>>,
) -> bool {
    &&& is_dynamic(values[i])
    &&& skip_index != Some(i as usize)
    &&& match skip_name {
        Some(n) => values[i].name@ != n,
        None => true,
    }
}

fn has_param(dims: &Vec<DimKind>) -> (b: bool)
    ensures
        b == exists|k: int| 0 <= k < dims@.len() && (#[trigger] dims@[k]) is Param,
{
    let mut k: usize = 0;
    while k < dims.len()
        invariant
            k <= dims@.len(),
            forall|j: int| 0 <= j < k ==> !((#[trigger] dims@[j]) is Param),
        decreases dims@.len() - k,
    {
        if let DimKind::Param(_) = &dims[k] {
            assert(dims@[k as int] is Param);
            return true;
        }
        k = k + 1;
    }
    false
}

fn is_dynamic_value(v: &ValueShape) -> (b: bool)
    ensures
        b == is_dynamic(*v),
{
    match &v.value_type {
        ValueType::Tensor(shape) => match shape {
            Some(dims) => has_param(dims),
            None => false,
        },
        _ => false,
    }
}

fn is_initializer_name(g: &GraphShapes, name: &String) -> (b: bool)
    ensures
        b == is_initializer(*g, name@),
{
    let mut k: usize = 0;
    while k < g.initializer_names.len()
        invariant
            k <= g.initializer_names@.len(),
            forall|j: int| 0 <= j < k ==> (#[trigger] g.initializer_names@[j])@ != name@,
        decreases g.initializer_names@.len() - k,
    {
        if same_text(g.initializer_names[k].as_str(), name.as_str()) {
            return true;
        }
        k = k + 1;
    }
    false
}

/// The positions of the dynamic values, leaving out position `skip_index`
/// and the values named `skip_name`.
fn cleared_positions(values: &Vec<ValueShape>, skip_index: Option<usize>, skip_name: Option<&str>) -> (list: Vec<usize>)
    ensures
        lists_exactly(
            list@,
            values@.len() as int,
            |i: int|
                is_cleared(
                    values@,
                    i,
                    skip_index,
                    match skip_name {
                        Some(n) => Some(n@),
                        None => None,
                    },
                ),
        ),
{
    let ghost sn = match skip_name {
        Some(n) => Some(n@),
        None => None::<Seq<char>>,
    };
    let ghost pred = |i: int| is_cleared(values@, i, skip_index, sn);
    let mut list: Vec<usize> = Vec::new();
    let mut i: usize = 0;
    while i < values.len()
        invariant
            i <= values@.len(),
            pred == (|i: int| is_cleared(values@, i, skip_index, sn)),
            sn == match skip_name {
                Some(n) => Some(n@),
                None => None::<Seq<char>>,
            },
            forall|p: int, q: int| 0 <= p < q < list@.len() ==> #[trigger] list@[p] < #[trigger] list@[q],
            forall|p: int| 0 <= p < list@.len() ==> #[trigger] list@[p] < i && pred(list@[p] as int),
            forall|x: usize| x < i && pred(x as int) ==> #[trigger] list@.contains(x),
        decreases values@.len() - i,
    {
        let dynamic = is_dynamic_value(&values[i]);
        let skipped_index = match skip_index {
            Some(s) => s == i,
            None => false,
        };
        let skipped_name = match skip_name {
            Some(n) => same_text(values[i].name.as_str(), n),
            None => false,
        };
        if dynamic && !skipped_index && !skipped_name {
            let ghost before = list@;
            list.push(i);
            proof {
                assert forall|x: usize| x < i + 1 && pred(x as int) implies #[trigger] list@.contains(x) by {
                    if x == i {
                        assert(list@[list@.len() - 1] == x);
                    } else {
                        assert(before.contains(x));
                        let p = choose|p: int| 0 <= p < before.len() && before[p] == x;
                        assert(list@[p] == x);
                    }
                }
            }
        } else {
            proof {
                assert(!pred(i as int));
                assert forall|x: usize| x < i + 1 && pred(x as int) implies #[trigger] list@.contains(x) by {
                    assert(x != i);
                }
            }
        }
        i = i + 1;
    }
    list
}

/// Decides how the input shape of a graph is fixed: which input receives
/// the concrete shape, and which declared shapes are dropped. The values
/// named like the chosen input keep their shape.
pub fn plan_input_shape_patch(graph: Option<&GraphShapes>) -> (r: Result<ShapePatch, String>)
    ensures
        match r {
            Err(msg) => match graph {
                None => msg@ == "ONNX 模型缺少 graph"@,
                Some(g) => {
                    ||| (g.inputs@.len() == 0 && msg@ == "ONNX 模型没有可用输入节点"@)
                    ||| (exists|idx: int|
                        is_chosen_input(*g, idx) && {
                            let v = #[trigger] g.inputs@[idx];
                            ||| (v.value_type is Missing && msg@ == "值 "@ + v.name@ + " 缺少类型信息"@)
                            ||| (v.value_type is NotTensor && msg@ == "值 "@ + v.name@
                                + " 不是张量输入"@)
                        })
                },
            },
            Ok(patch) => {
                &&& graph is Some
                &&& is_chosen_input(*graph.unwrap(), patch.input_index as int)
                &&& graph.unwrap().inputs@[patch.input_index as int].value_type is Tensor
                &&& lists_exactly(
                    patch.cleared_inputs@,
                    graph.unwrap().inputs@.len() as int,
                    |i: int|
                        is_cleared(graph.unwrap().inputs@, i, Some(patch.input_index), None),
                )
                &&& lists_exactly(
                    patch.cleared_outputs@,
                    graph.unwrap().outputs@.len() as int,
                    |i: int| is_cleared(graph.unwrap().outputs@, i, None, None),
                )
                &&& lists_exactly(
                    patch.cleared_value_infos@,
                    graph.unwrap().value_infos@.len() as int,
                    |i: int|
                        is_cleared(
                            graph.unwrap().value_infos@,
                            i,
                            None,
                            Some(graph.unwrap().inputs@[patch.input_index as int].name@),
                        ),
                )
            },
        },
{
    let g = match graph {
        Some(g) => g,
        None => {
            return Err(String::from_str("ONNX 模型缺少 graph"));
        },
    };
    let mut idx: usize = 0;
    let mut found = false;
    while idx < g.inputs.len() && !found
        invariant
            idx <= g.inputs@.len(),
            found ==> idx < g.inputs@.len() && !is_initializer(*g, g.inputs@[idx as int].name@),
            forall|j: int| 0 <= j < idx ==> is_initializer(*g, (#[trigger] g.inputs@[j]).name@),
        decreases g.inputs@.len() - idx + (if found {
            0int
        } else {
            1int
        }),
    {
        if !is_initializer_name(g, &g.inputs[idx].name) {
            found = true;
        } else {
            idx = idx + 1;
        }
    }
    if !found {
        idx = 0;
    }
    if idx >= g.inputs.len() {
        return Err(String::from_str("ONNX 模型没有可用输入节点"));
    }
    let ghost chosen = idx as int;
    assert(is_chosen_input(*g, chosen));
    match &g.inputs[idx].value_type {
        ValueType::Missing => {
            let mut msg = String::from_str("值 ");
            msg.append(g.inputs[idx].name.as_str());
            msg.append(" 缺少类型信息");
            return Err(msg);
        },
        ValueType::NotTensor => {
            let mut msg = String::from_str("值 ");
            msg.append(g.inputs[idx].name.as_str());
            msg.append(" 不是张量输入");
            return Err(msg);
        },
        ValueType::Tensor(_) => {},
    }
    let cleared_inputs = cleared_positions(&g.inputs, Some(idx), None);
    let cleared_outputs = cleared_positions(&g.outputs, None, None);
    let cleared_value_infos = cleared_positions(
        &g.value_infos,
        None,
        Some(g.inputs[idx].name.as_str()),
    );
    Ok(ShapePatch { input_index: idx, cleared_inputs, cleared_outputs, cleared_value_infos })
}

} // verus!
