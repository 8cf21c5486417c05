use rex_engine::error::EngineError;
use rex_engine::main_inputs::{main_input_args, MainInputSpec, MainSignature};
use rex_engine::value::Value;

fn signature(names: &[&str]) -> MainSignature<u8> {
    let inputs = names
        .iter()
        .enumerate()
        .map(|(i, n)| MainInputSpec { name: n.to_string(), typ: i as u8 })
        .collect();
    MainSignature::new(inputs, 99)
}

#[test]
fn signature_getters_give_back_its_parts() {
    let sig = signature(&["x", "y"]);
    assert_eq!(sig.inputs().len(), 2);
    assert_eq!(sig.inputs()[1].name, "y");
    assert_eq!(*sig.result_type(), 99);
}

#[test]
fn inputs_come_out_in_signature_order() {
    let sig = signature(&["zeta", "alpha"]);
    let inputs = vec![
        ("alpha".to_string(), Value::U8(1)),
        ("zeta".to_string(), Value::U8(2)),
    ];
    let args = main_input_args(&sig, inputs).unwrap();
    assert_eq!(args.len(), 2);
    assert!(matches!(args[0], (Value::U8(2), 0)));
    assert!(matches!(args[1], (Value::U8(1), 1)));
}

#[test]
fn no_inputs_for_no_parameters() {
    let sig = signature(&[]);
    let args = main_input_args(&sig, Vec::new()).unwrap();
    assert!(args.is_empty());
}

#[test]
fn missing_and_extra_inputs_are_named_in_order() {
    let sig = signature(&["b", "d", "a"]);
    let inputs = vec![
        ("a".to_string(), Value::U8(1)),
        ("c".to_string(), Value::U8(2)),
        ("e".to_string(), Value::U8(3)),
    ];
    match main_input_args(&sig, inputs) {
        Err(EngineError::MainInputMismatch { missing, extra }) => {
            assert_eq!(missing, vec!["b".to_string(), "d".to_string()]);
            assert_eq!(extra, vec!["c".to_string(), "e".to_string()]);
        }
        other => panic!("unexpected {:?}", other),
    }
}

#[test]
fn only_extra_inputs_still_mismatch() {
    let sig = signature(&["a"]);
    let inputs = vec![
        ("a".to_string(), Value::U8(1)),
        ("b".to_string(), Value::U8(2)),
    ];
    match main_input_args(&sig, inputs) {
        Err(EngineError::MainInputMismatch { missing, extra }) => {
            assert!(missing.is_empty());
            assert_eq!(extra, vec!["b".to_string()]);
        }
        other => panic!("unexpected {:?}", other),
    }
}

#[test]
fn repeated_parameter_names_are_an_internal_error() {
    let sig = signature(&["a", "a"]);
    let inputs = vec![("a".to_string(), Value::U8(1))];
    assert!(matches!(
        main_input_args(&sig, inputs),
        Err(EngineError::Internal("validated input map was incomplete"))
    ));
}
