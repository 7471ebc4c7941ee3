use minilua::parser::{ByteCode, ParseProto};
use minilua::tokenizer::Tokenizer;
use minilua::lexer::TokenG;
use minilua::value::{Value, ValueG};
use minilua::vm::ExeState;
use minilua::{LuaError, RuntimeFault};

fn run(src: &str) -> (ExeState, Result<(), LuaError>) {
    let proto = ParseProto::load(src.as_bytes().to_vec()).expect("program should compile");
    let mut exe = ExeState::new();
    let r = exe.execute(&proto);
    (exe, r)
}

#[test]
fn executing_global_store_binds_the_global() {
    let (exe, r) = run("x = 10");
    assert_eq!(r, Ok(()));
    assert_eq!(exe.get_global(&b"x".to_vec()), Some(ValueG::Integer(10)));
    assert_eq!(exe.get_global(&b"y".to_vec()), None);
}

#[test]
fn print_writes_its_argument_to_the_output() {
    let (exe, r) = run("print(\"hello\")");
    assert_eq!(r, Ok(()));
    assert_eq!(exe.output, vec![ValueG::Str(b"hello".to_vec())]);
}

#[test]
fn shadowed_local_read_prints_second_value() {
    let (exe, r) = run("local x = 1 local x = 2 print(x)");
    assert_eq!(r, Ok(()));
    assert_eq!(exe.output, vec![ValueG::Integer(2)]);
}

#[test]
fn calling_an_unassigned_name_is_an_invalid_function_fault() {
    let (exe, r) = run("foo(1)");
    assert_eq!(r, Err(LuaError::Runtime(RuntimeFault::InvalidFunction)));
    assert_eq!(exe.output, vec![]);
}

#[test]
fn calling_a_non_function_value_is_an_invalid_function_fault() {
    let (_, r) = run("foo = 1 foo(2)");
    assert_eq!(r, Err(LuaError::Runtime(RuntimeFault::InvalidFunction)));
}

#[test]
fn unassigned_global_reads_as_nil() {
    let (exe, r) = run("x = y print(x)");
    assert_eq!(r, Ok(()));
    assert_eq!(exe.get_global(&b"x".to_vec()), Some(ValueG::Nil));
    assert_eq!(exe.output, vec![ValueG::Nil]);
}

#[test]
fn global_copied_from_global_and_from_local() {
    let (exe, r) = run("x = 1 y = x local a = true z = a");
    assert_eq!(r, Ok(()));
    assert_eq!(exe.get_global(&b"y".to_vec()), Some(ValueG::Integer(1)));
    assert_eq!(exe.get_global(&b"z".to_vec()), Some(ValueG::Boolean(true)));
}

#[test]
fn rebinding_a_global_replaces_its_value() {
    let (exe, r) = run("x = 1 x = \"two\"");
    assert_eq!(r, Ok(()));
    assert_eq!(exe.get_global(&b"x".to_vec()), Some(ValueG::Str(b"two".to_vec())));
}

#[test]
fn rerunning_a_program_on_fresh_state_is_identical() {
    let proto =
        ParseProto::load(b"x = 10 print(\"hi\") local a = 3 print(a) y = x".to_vec()).unwrap();
    let mut one = ExeState::new();
    let r1 = one.execute(&proto);
    let mut two = ExeState::new();
    let r2 = two.execute(&proto);
    assert_eq!(r1, r2);
    assert_eq!(one.output, two.output);
    for name in [b"x".to_vec(), b"y".to_vec(), b"a".to_vec(), b"print".to_vec()] {
        assert_eq!(one.get_global(&name), two.get_global(&name));
    }
}

#[test]
fn print_of_assorted_values() {
    let (exe, r) = run("print(Nil) print(true) print(7) local s = \"txt\" print(s)");
    assert_eq!(r, Ok(()));
    assert_eq!(
        exe.output,
        vec![
            ValueG::Nil,
            ValueG::Boolean(true),
            ValueG::Integer(7),
            ValueG::Str(b"txt".to_vec()),
        ]
    );
}

#[test]
fn stack_gap_fault_on_hand_built_program() {
    // compiled programs never produce this: a write beyond the next free
    // slot must come from a hand-built instruction sequence
    let proto = ParseProto { constants: vec![], byte_codes: vec![ByteCode::LoadNil(5)], locals: vec![] };
    let mut exe = ExeState::new();
    assert_eq!(exe.execute(&proto), Err(LuaError::Runtime(RuntimeFault::StackGap)));
}

#[test]
fn constant_out_of_range_fault_on_hand_built_program() {
    let proto =
        ParseProto { constants: vec![], byte_codes: vec![ByteCode::LoadConst(0, 3)], locals: vec![] };
    let mut exe = ExeState::new();
    assert_eq!(exe.execute(&proto), Err(LuaError::Runtime(RuntimeFault::ConstantOutOfRange)));
}

#[test]
fn stack_out_of_range_fault_on_hand_built_program() {
    let proto =
        ParseProto { constants: vec![], byte_codes: vec![ByteCode::Move(0, 1)], locals: vec![] };
    let mut exe = ExeState::new();
    assert_eq!(exe.execute(&proto), Err(LuaError::Runtime(RuntimeFault::StackOutOfRange)));
}

#[test]
fn invalid_global_key_fault_on_hand_built_program() {
    let proto = ParseProto {
        constants: vec![ValueG::Integer(1)],
        byte_codes: vec![ByteCode::GetGlobal(0, 0)],
        locals: vec![],
    };
    let mut exe = ExeState::new();
    assert_eq!(exe.execute(&proto), Err(LuaError::Runtime(RuntimeFault::InvalidGlobalKey)));
}

#[test]
fn fault_preserves_output_written_before_it() {
    let (exe, r) = run("print(1) foo(2) print(3)");
    assert_eq!(r, Err(LuaError::Runtime(RuntimeFault::InvalidFunction)));
    assert_eq!(exe.output, vec![ValueG::Integer(1)]);
}

#[test]
fn fresh_interpreter_binds_only_print() {
    let exe = ExeState::new();
    assert!(matches!(
        exe.get_global(&b"print".to_vec()),
        Some(ValueG::NativeFunction(_))
    ));
    assert_eq!(exe.get_global(&b"x".to_vec()), None);
    let empty: Vec<Value> = vec![];
    assert_eq!(exe.output, empty);
}

#[test]
fn tokenizer_scans_strings_names_and_eos() {
    let mut tk = Tokenizer::new(b"\"hi\" abc 123 _x".to_vec());
    assert_eq!(tk.next().unwrap(), TokenG::Str(b"hi".to_vec()));
    assert_eq!(tk.next().unwrap(), TokenG::Name(b"abc".to_vec()));
    assert_eq!(tk.next().unwrap(), TokenG::Name(b"123".to_vec()));
    assert_eq!(tk.next().unwrap(), TokenG::Name(b"_x".to_vec()));
    assert_eq!(tk.next().unwrap(), TokenG::EOS);
}

#[test]
fn tokenizer_rejects_operators_and_unterminated_strings() {
    let mut tk = Tokenizer::new(b"=".to_vec());
    assert!(tk.next().is_err());
    let mut tk2 = Tokenizer::new(b"\"open".to_vec());
    assert!(tk2.next().is_err());
}

#[test]
fn tokenizer_read_char_consumes_one_byte_and_reports_zero_at_end() {
    let mut tk = Tokenizer::new(b"x".to_vec());
    assert_eq!(tk.read_char(), b'x');
    assert_eq!(tk.read_char(), 0);
}
