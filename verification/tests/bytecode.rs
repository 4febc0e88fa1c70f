//! Tests that drive the machine on hand-built instruction sequences: the
//! array instructions (which the compiler does not lower), the defensive
//! checks, and the call-protocol edge cases.

use phpvm::code::Code;
use phpvm::error::RuntimeError;
use phpvm::globals::Globals;
use phpvm::object::Object;
use phpvm::vm::{run, Status};

const FUEL: u64 = 100_000;

fn exec(constants: Vec<Object>, code: Vec<Code>) -> (Vec<String>, Status) {
    run(constants, code, Globals::new(), FUEL)
}

#[test]
fn array_append_is_visible_through_every_alias() {
    // $a = []; $b = $a; append 42 through $a; echo $b["0"];
    let code = vec![
        Code::InitArray,
        Code::Assign("a".to_string()),
        Code::Pop,
        Code::Get("a".to_string()),
        Code::Assign("b".to_string()),
        Code::Pop,
        Code::Get("a".to_string()),
        Code::Constant(0),
        Code::AddToArray,
        Code::Pop,
        Code::Get("b".to_string()),
        Code::Constant(1),
        Code::GetArrayItem,
        Code::Echo,
    ];
    let constants = vec![Object::Integer(42), Object::Integer(0)];
    let (out, st) = exec(constants, code);
    assert_eq!(st, Status::Done);
    assert_eq!(out, vec!["42".to_string()]);
}

#[test]
fn array_keys_follow_insertion_order() {
    // Append twice, read both numeric-string keys.
    let code = vec![
        Code::InitArray,
        Code::Assign("a".to_string()),
        Code::Pop,
        Code::Get("a".to_string()),
        Code::Constant(0),
        Code::AddToArray,
        Code::Constant(1),
        Code::AddToArray,
        Code::Pop,
        Code::Get("a".to_string()),
        Code::Constant(2),
        Code::GetArrayItem,
        Code::Echo,
        Code::Get("a".to_string()),
        Code::Constant(3),
        Code::GetArrayItem,
        Code::Echo,
    ];
    let constants = vec![
        Object::String("first".to_string()),
        Object::String("second".to_string()),
        Object::Integer(0),
        Object::Integer(1),
    ];
    let (out, st) = exec(constants, code);
    assert_eq!(st, Status::Done);
    assert_eq!(out, vec!["first".to_string(), "second".to_string()]);
}

#[test]
fn missing_array_key_is_fatal() {
    let code = vec![
        Code::InitArray,
        Code::Constant(0),
        Code::GetArrayItem,
        Code::Echo,
    ];
    let (out, st) = exec(vec![Object::Integer(7)], code);
    assert_eq!(st, Status::Failed(RuntimeError::UndefinedArrayKey));
    assert!(out.is_empty());
}

#[test]
fn count_sees_appended_entries() {
    let code = vec![
        Code::InitArray,
        Code::Assign("a".to_string()),
        Code::Pop,
        Code::Get("a".to_string()),
        Code::Constant(0),
        Code::AddToArray,
        Code::Constant(0),
        Code::AddToArray,
        Code::Pop,
        Code::InitCall("count".to_string()),
        Code::Get("a".to_string()),
        Code::SendArg,
        Code::DoInternalCall,
        Code::Echo,
    ];
    let (out, st) = exec(vec![Object::True], code);
    assert_eq!(st, Status::Done);
    assert_eq!(out, vec!["2".to_string()]);
}

#[test]
fn var_dump_of_array_lists_entries_in_order() {
    let code = vec![
        Code::InitArray,
        Code::Constant(0),
        Code::AddToArray,
        Code::Constant(1),
        Code::AddToArray,
        Code::Assign("a".to_string()),
        Code::Pop,
        Code::InitCall("var_dump".to_string()),
        Code::Get("a".to_string()),
        Code::SendArg,
        Code::DoInternalCall,
        Code::Pop,
    ];
    let constants = vec![Object::Integer(1), Object::String("x".to_string())];
    let (out, st) = exec(constants, code);
    assert_eq!(st, Status::Done);
    assert_eq!(
        out,
        vec!["array(2) {\n  int(1)\n  string(1) \"x\"\n}\n".to_string()]
    );
}

#[test]
fn var_dump_of_self_referential_array_is_fatal() {
    // $a = []; append $a to itself; var_dump($a) cannot linearize it.
    let code = vec![
        Code::InitArray,
        Code::Assign("a".to_string()),
        Code::Pop,
        Code::Get("a".to_string()),
        Code::Get("a".to_string()),
        Code::AddToArray,
        Code::Pop,
        Code::InitCall("var_dump".to_string()),
        Code::Get("a".to_string()),
        Code::SendArg,
        Code::DoInternalCall,
        Code::Pop,
    ];
    let (out, st) = exec(vec![], code);
    assert_eq!(st, Status::Failed(RuntimeError::DumpTooDeep));
    assert!(out.is_empty());
}

#[test]
fn echo_on_empty_stack_underflows() {
    let (_, st) = exec(vec![], vec![Code::Echo]);
    assert_eq!(st, Status::Failed(RuntimeError::StackUnderflow));
}

#[test]
fn send_arg_without_staged_call_is_fatal() {
    let (_, st) = exec(vec![], vec![Code::True, Code::SendArg]);
    assert_eq!(st, Status::Failed(RuntimeError::CallBufferUnderflow));
}

#[test]
fn invoke_without_staged_call_is_fatal() {
    let (_, st) = exec(vec![], vec![Code::DoUserCall]);
    assert_eq!(st, Status::Failed(RuntimeError::CallBufferUnderflow));
}

#[test]
fn return_in_outermost_frame_is_fatal() {
    let (_, st) = exec(vec![], vec![Code::Return]);
    assert_eq!(st, Status::Failed(RuntimeError::FrameUnderflow));
}

#[test]
fn constant_index_out_of_range_is_fatal() {
    let (_, st) = exec(vec![], vec![Code::Constant(0)]);
    assert_eq!(st, Status::Failed(RuntimeError::ConstantIndexOutOfRange));
}

#[test]
fn add_to_non_array_is_fatal() {
    let code = vec![Code::Constant(0), Code::Constant(0), Code::AddToArray];
    let (_, st) = exec(vec![Object::Integer(1)], code);
    assert_eq!(st, Status::Failed(RuntimeError::TypeMismatch));
}

#[test]
fn jump_past_end_halts_cleanly() {
    // A jump target equal to the sequence length stops execution.
    let code = vec![Code::Jump(5), Code::True, Code::Echo];
    let (out, st) = exec(vec![], code);
    assert_eq!(st, Status::Done);
    assert!(out.is_empty());
}

#[test]
fn pop_on_empty_stack_is_harmless() {
    let code = vec![Code::Pop, Code::True, Code::Echo];
    let (out, st) = exec(vec![], code);
    assert_eq!(st, Status::Done);
    assert_eq!(out, vec!["1".to_string()]);
}

#[test]
fn user_call_protocol_binds_parameters_in_order() {
    // Hand-built callee: bind $x, bind $y, return $x (first declared
    // parameter), called with arguments staged in reverse order as the
    // compiler emits them.
    let mut globals = Globals::new();
    let callee = vec![
        Code::Assign("x".to_string()),
        Code::Pop,
        Code::Assign("y".to_string()),
        Code::Pop,
        Code::Get("x".to_string()),
        Code::ReturnWith,
    ];
    globals.create_user_function("pick".to_string(), callee);
    let code = vec![
        Code::InitCall("pick".to_string()),
        Code::Constant(1),
        Code::SendArg,
        Code::Constant(0),
        Code::SendArg,
        Code::DoUserCall,
        Code::Echo,
    ];
    let constants = vec![
        Object::String("first".to_string()),
        Object::String("second".to_string()),
    ];
    let (out, st) = run(constants, code, globals, FUEL);
    assert_eq!(st, Status::Done);
    assert_eq!(out, vec!["first".to_string()]);
}

#[test]
fn internal_invoke_of_user_frame_is_fatal() {
    let mut globals = Globals::new();
    globals.create_user_function("f".to_string(), vec![Code::Return]);
    let code = vec![Code::InitCall("f".to_string()), Code::DoInternalCall];
    let (_, st) = run(vec![], code, globals, FUEL);
    assert_eq!(st, Status::Failed(RuntimeError::CallKindMismatch));
}

#[test]
fn registry_lookup_miss_is_fatal() {
    let code = vec![Code::InitCall("ghost".to_string())];
    let (_, st) = exec(vec![], code);
    assert_eq!(st, Status::Failed(RuntimeError::UndefinedFunction));
}

#[test]
fn var_dump_of_nested_array_indents_one_level() {
    // $inner = [7]; $outer = [$inner]; var_dump($outer);
    let code = vec![
        Code::InitArray,
        Code::Constant(0),
        Code::AddToArray,
        Code::Assign("inner".to_string()),
        Code::Pop,
        Code::InitArray,
        Code::Get("inner".to_string()),
        Code::AddToArray,
        Code::Assign("outer".to_string()),
        Code::Pop,
        Code::InitCall("var_dump".to_string()),
        Code::Get("outer".to_string()),
        Code::SendArg,
        Code::DoInternalCall,
        Code::Pop,
    ];
    let (out, st) = exec(vec![Object::Integer(7)], code);
    assert_eq!(st, Status::Done);
    assert_eq!(
        out,
        vec!["array(1) {\n  array(1) {\n  int(7)\n}\n}\n".to_string()]
    );
}
