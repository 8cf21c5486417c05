use rex_engine::error::{EngineError, FrameFault};
use rex_engine::frames::{
    completed_values, frame_kind_error, map_option_value, map_option_values,
    receive_app_child_value, receive_continues_sequence, receive_sequence_value,
    unexpected_child_result, AppFrame,
};
use rex_engine::scheduler::FrameId;

fn fault(r: Result<(), EngineError>) -> FrameFault {
    match r {
        Err(EngineError::Frame { fault, .. }) => fault,
        other => panic!("unexpected {:?}", other),
    }
}

#[test]
fn sequence_results_fill_their_slots() {
    let children = [FrameId(1), FrameId(2), FrameId(3)];
    let mut values: Vec<Option<u8>> = vec![None, None, None];
    let mut remaining = 3usize;
    receive_sequence_value("list", &children, &mut values, &mut remaining, FrameId(2), 20).unwrap();
    receive_sequence_value("list", &children, &mut values, &mut remaining, FrameId(1), 10).unwrap();
    assert_eq!(values, vec![Some(10), Some(20), None]);
    assert_eq!(remaining, 1);
    assert!(completed_values("list", &values).is_err());
    receive_sequence_value("list", &children, &mut values, &mut remaining, FrameId(3), 30).unwrap();
    assert_eq!(remaining, 0);
    assert_eq!(completed_values("list", &values).unwrap(), vec![10, 20, 30]);
}

#[test]
fn sequence_results_report_each_fault() {
    let children = [FrameId(1), FrameId(2)];
    let mut values: Vec<Option<u8>> = vec![Some(1), None];
    let mut remaining = 1usize;
    assert_eq!(
        fault(receive_sequence_value("tuple", &children, &mut values, &mut remaining, FrameId(9), 0)),
        FrameFault::UnknownChild
    );
    assert_eq!(
        fault(receive_sequence_value("tuple", &children, &mut values, &mut remaining, FrameId(1), 0)),
        FrameFault::DuplicateResult
    );
    let mut short: Vec<Option<u8>> = vec![None];
    assert_eq!(
        fault(receive_sequence_value("tuple", &children, &mut short, &mut remaining, FrameId(2), 0)),
        FrameFault::SlotOutOfBounds
    );
    let mut zero = 0usize;
    assert_eq!(
        fault(receive_sequence_value("tuple", &children, &mut values, &mut zero, FrameId(2), 5)),
        FrameFault::ExcessResult
    );
    assert_eq!(values, vec![Some(1), Some(5)]);
    match completed_values::<u8>("record", &[None]) {
        Err(EngineError::Frame { kind, fault }) => {
            assert_eq!(kind, "record");
            assert_eq!(fault, FrameFault::MissingResult);
        }
        other => panic!("unexpected {:?}", other),
    }
}

#[test]
fn a_repeated_child_fills_its_first_slot() {
    let children = [FrameId(4), FrameId(4)];
    let mut values: Vec<Option<u8>> = vec![None, None];
    let mut remaining = 2usize;
    receive_sequence_value("list", &children, &mut values, &mut remaining, FrameId(4), 1).unwrap();
    assert_eq!(values, vec![Some(1), None]);
}

#[test]
fn sequences_continue_until_the_last_index() {
    assert!(receive_continues_sequence(0, 2));
    assert!(!receive_continues_sequence(1, 2));
    assert!(!receive_continues_sequence(5, 2));
    assert!(receive_continues_sequence(usize::MAX, 0));
}

#[test]
fn frame_errors_name_the_frame() {
    match frame_kind_error::<()>("lambda") {
        Err(EngineError::Frame { kind, fault }) => {
            assert_eq!(kind, "lambda");
            assert_eq!(fault, FrameFault::KindMismatch);
        }
        other => panic!("unexpected {:?}", other),
    }
    match unexpected_child_result::<()>("literal") {
        Err(EngineError::Frame { kind, fault }) => {
            assert_eq!(kind, "literal");
            assert_eq!(fault, FrameFault::UnexpectedChild);
        }
        other => panic!("unexpected {:?}", other),
    }
}

#[test]
fn application_frames_take_head_and_arguments() {
    let mut frame = AppFrame {
        head_child: Some(FrameId(1)),
        func: None,
        arg_children: vec![FrameId(2), FrameId(3)],
        arg_values: vec![None, None],
        remaining: 3,
    };
    receive_app_child_value(&mut frame, FrameId(3), 30u8).unwrap();
    receive_app_child_value(&mut frame, FrameId(1), 10u8).unwrap();
    assert_eq!(frame.func, Some(10));
    assert_eq!(frame.arg_values, vec![None, Some(30)]);
    assert_eq!(frame.remaining, 1);
    assert_eq!(fault(receive_app_child_value(&mut frame, FrameId(1), 11u8)), FrameFault::DuplicateHead);
    assert_eq!(fault(receive_app_child_value(&mut frame, FrameId(3), 31u8)), FrameFault::DuplicateArgument);
    assert_eq!(fault(receive_app_child_value(&mut frame, FrameId(8), 0u8)), FrameFault::UnknownChild);
    receive_app_child_value(&mut frame, FrameId(2), 20u8).unwrap();
    assert_eq!(frame.remaining, 0);
    let mut done = AppFrame {
        head_child: Some(FrameId(1)),
        func: None,
        arg_children: vec![],
        arg_values: vec![],
        remaining: 0,
    };
    assert_eq!(fault(receive_app_child_value(&mut done, FrameId(1), 1u8)), FrameFault::ExcessResult);
    assert_eq!(done.func, Some(1));
    let mut short = AppFrame {
        head_child: Some(FrameId(1)),
        func: None,
        arg_children: vec![FrameId(2), FrameId(3)],
        arg_values: vec![None],
        remaining: 3,
    };
    assert_eq!(fault(receive_app_child_value(&mut short, FrameId(3), 1u8)), FrameFault::ArgumentSlotOutOfBounds);
    assert_eq!(short.remaining, 3);
}

#[test]
fn option_values_map_in_order_and_stop_at_an_error() {
    let double = |x: u32| -> Result<u32, String> {
        if x > 100 {
            Err(format!("too big: {x}"))
        } else {
            Ok(x * 2)
        }
    };
    assert_eq!(map_option_value(None, &double), Ok(None));
    assert_eq!(map_option_value(Some(4), &double), Ok(Some(8)));
    assert_eq!(
        map_option_values(vec![Some(1), None, Some(3)], &double),
        Ok(vec![Some(2), None, Some(6)])
    );
    assert_eq!(
        map_option_values(vec![Some(1), Some(200), Some(300)], &double),
        Err("too big: 200".to_string())
    );
}

#[test]
fn frame_faults_read_as_messages() {
    assert_eq!(
        rex_engine::frames::fault_message("application", FrameFault::DuplicateArgument),
        "application received duplicate result from argument child"
    );
    assert_eq!(
        rex_engine::frames::fault_message("application", FrameFault::ArgumentSlotOutOfBounds),
        "application argument result slot index out of bounds"
    );
    assert_eq!(
        rex_engine::frames::fault_message("lambda", FrameFault::KindMismatch),
        "frame does not match typed expression kind `lambda`"
    );
}
