use aiocr::models::{engine_parts, DetectorChoice, RecognizerChoice};
use aiocr::onnx_shapes::{plan_input_shape_patch, DimKind, GraphShapes, ValueShape, ValueType};

fn dims(spec: &[&str]) -> ValueType {
    ValueType::Tensor(Some(
        spec.iter()
            .map(|d| match d.parse::<i64>() {
                Ok(v) => DimKind::Fixed(v),
                Err(_) if d.is_empty() => DimKind::Unset,
                Err(_) => DimKind::Param(d.to_string()),
            })
            .collect(),
    ))
}

fn value(name: &str, value_type: ValueType) -> ValueShape {
    ValueShape { name: name.to_string(), value_type }
}

fn graph() -> GraphShapes {
    GraphShapes {
        initializer_names: vec!["w".to_string(), "b".to_string()],
        inputs: vec![
            value("w", dims(&["n", "3"])),
            value("x", dims(&["batch", "3", "h", "w"])),
            value("b", dims(&["k"])),
            value("c", dims(&["3"])),
        ],
        outputs: vec![value("y", dims(&["batch", "1", "h", "w"])), value("z", dims(&["1", ""]))],
        value_infos: vec![
            value("x", dims(&["batch", "3", "h", "w"])),
            value("t", dims(&["batch"])),
            value("u", ValueType::Tensor(None)),
            value("v", ValueType::Missing),
        ],
    }
}

#[test]
fn first_non_initializer_input_is_fixed() {
    let patch = plan_input_shape_patch(Some(&graph())).unwrap();
    assert_eq!(patch.input_index, 1);
    assert_eq!(patch.cleared_inputs, vec![0, 2]);
    assert_eq!(patch.cleared_outputs, vec![0]);
    assert_eq!(patch.cleared_value_infos, vec![1]);
}

#[test]
fn all_initializer_inputs_fall_back_to_the_first() {
    let mut g = graph();
    g.inputs.retain(|v| v.name == "w" || v.name == "b");
    let patch = plan_input_shape_patch(Some(&g)).unwrap();
    assert_eq!(patch.input_index, 0);
    assert_eq!(patch.cleared_inputs, vec![1]);
}

#[test]
fn shape_patch_errors() {
    assert_eq!(plan_input_shape_patch(None).unwrap_err(), "ONNX 模型缺少 graph");
    let mut g = graph();
    g.inputs.clear();
    assert_eq!(plan_input_shape_patch(Some(&g)).unwrap_err(), "ONNX 模型没有可用输入节点");
    let mut g = graph();
    g.inputs[1].value_type = ValueType::Missing;
    assert_eq!(plan_input_shape_patch(Some(&g)).unwrap_err(), "值 x 缺少类型信息");
    g.inputs[1].value_type = ValueType::NotTensor;
    assert_eq!(plan_input_shape_patch(Some(&g)).unwrap_err(), "值 x 不是张量输入");
}

#[test]
fn engine_uses_the_model_files_found() {
    assert!(engine_parts(true, true) == (DetectorChoice::OnnxFile, RecognizerChoice::OnnxFile));
    assert!(engine_parts(false, true) == (DetectorChoice::Builtin, RecognizerChoice::OnnxFile));
    assert!(engine_parts(true, false) == (DetectorChoice::OnnxFile, RecognizerChoice::Embedded));
    assert!(engine_parts(false, false) == (DetectorChoice::Builtin, RecognizerChoice::Embedded));
}
