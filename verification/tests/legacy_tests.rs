use menu_driver::json::Json;
use menu_driver::row2::FallbackRow;
use menu_driver::stack_op::{StackOp, StackOps, split_text};
use menu_driver::stack_op2::{FallbackStackOp, FallbackStackOps};

#[test]
fn split_text_cuts_at_every_separator() {
    let parts = split_text("a\x03b\x03", '\x03');
    assert_eq!(parts, vec!["a".to_string(), "b".to_string(), "".to_string()]);
    assert_eq!(split_text("", '\x03'), vec!["".to_string()]);
}

#[test]
fn stack_op_wire_round_trip() {
    let op = StackOp::Push("value".to_string());
    assert_eq!(op.to_string(), "\x01value");
    assert_eq!(StackOp::from_str("\x01value").unwrap(), op);
    assert_eq!(StackOp::from_str("\x02").unwrap(), StackOp::Pop);
    assert!(StackOp::from_str("").is_err());
    assert!(StackOp::from_str("plain").is_err());
}

#[test]
fn stack_ops_wire_round_trip() {
    let ops = StackOps(vec![StackOp::Push("a".to_string()), StackOp::Pop]);
    assert_eq!(ops.to_string(), "\x01a\x03\x02");
    let back = StackOps::from_str("\x01a\x03\x02").unwrap();
    assert_eq!(back.0, vec![StackOp::Push("a".to_string()), StackOp::Pop]);
    assert_eq!(StackOps(vec![]).to_string(), "");
    assert!(StackOps::from_str("").is_err());
}

#[test]
fn fallback_op_wire_round_trip() {
    assert_eq!(FallbackStackOp::PushUser.to_string(), "\x05");
    assert_eq!(
        FallbackStackOp::from_str("\x05").unwrap(),
        FallbackStackOp::PushUser
    );
    assert_eq!(
        FallbackStackOp::from_str("\x01x").unwrap(),
        FallbackStackOp::Push("x".to_string())
    );
}

#[test]
fn fallback_op_apply_edits_the_stack() {
    let mut stack: Vec<String> = vec!["a".to_string()];
    FallbackStackOp::Push("b".to_string()).apply("typed", &mut stack);
    assert_eq!(stack, vec!["a".to_string(), "b".to_string()]);
    FallbackStackOp::PushUser.apply("typed", &mut stack);
    assert_eq!(
        stack,
        vec!["a".to_string(), "b".to_string(), "typed".to_string()]
    );
    FallbackStackOp::Pop.apply("typed", &mut stack);
    assert_eq!(stack, vec!["a".to_string(), "b".to_string()]);
    let mut empty: Vec<String> = vec![];
    FallbackStackOp::Pop.apply("typed", &mut empty);
    assert!(empty.is_empty());
}

#[test]
fn stack_ops_decode_from_json_shapes() {
    let ops = menu_driver::stack_op::decode_stack_ops(&Json::Arr(vec![
        Json::Str("a".to_string()),
        Json::Null,
    ]))
    .unwrap();
    assert_eq!(ops.0, vec![StackOp::Push("a".to_string()), StackOp::Pop]);
    // the plain flavour has no user-input push
    assert!(menu_driver::stack_op::decode_stack_ops(&Json::Arr(vec![Json::Int(1)])).is_none());
    assert!(menu_driver::stack_op::decode_stack_op(&Json::Int(1)).is_none());
}

#[test]
fn fallback_ops_decode_from_json_shapes() {
    let ops = menu_driver::stack_op2::decode_fb_ops(&Json::Null).unwrap();
    assert_eq!(ops.0, vec![FallbackStackOp::Pop]);
    let ops2 = menu_driver::stack_op2::decode_fb_ops(&Json::Arr(vec![
        Json::Str("a".to_string()),
        Json::Int(1),
        Json::Null,
    ]))
    .unwrap();
    assert_eq!(
        ops2.0,
        vec![
            FallbackStackOp::Push("a".to_string()),
            FallbackStackOp::PushUser,
            FallbackStackOp::Pop
        ]
    );
    assert!(menu_driver::stack_op2::decode_fb_ops(&Json::Bool(true)).is_none());
}

#[test]
fn fallback_row_renders_its_compact_wire_form() {
    let row = FallbackRow {
        next_script: Some(FallbackStackOp::Push("/s.sh".to_string())),
        exec_cmd: "cmd".to_string(),
        fork: true,
        ops: FallbackStackOps(vec![FallbackStackOp::Push("x".to_string())]),
    };
    assert_eq!(row.info(), "\x01x\x03\x01/s.sh;;cmd");
    let unforked = FallbackRow {
        next_script: Some(FallbackStackOp::Push("/s.sh".to_string())),
        exec_cmd: "cmd".to_string(),
        fork: false,
        ops: FallbackStackOps(vec![]),
    };
    assert_eq!(unforked.info(), "\x01/s.sh;cmd");
    let bare = FallbackRow::default();
    assert_eq!(bare.info(), "");
}

#[test]
fn fallback_row_decodes_its_json_schema() {
    let j = Json::Obj(vec![
        ("push".to_string(), Json::Arr(vec![Json::Int(0)])),
        ("jump".to_string(), Json::Str("/s.sh".to_string())),
        ("exec".to_string(), Json::Str("cmd".to_string())),
        ("fork".to_string(), Json::Bool(true)),
    ]);
    let row = FallbackRow::decode(&j).unwrap();
    assert_eq!(row.ops.0, vec![FallbackStackOp::PushUser]);
    assert_eq!(row.next_script, Some(FallbackStackOp::Push("/s.sh".to_string())));
    assert_eq!(row.exec_cmd, "cmd");
    assert!(row.fork);
    let bad = Json::Obj(vec![("zzz".to_string(), Json::Null)]);
    assert!(FallbackRow::decode(&bad).is_none());
}
