use minilua::lexer::{Lexer, Token, TokenG};
use minilua::parser::{ByteCode, ParseProto};
use minilua::value::{NativeFn, Value, ValueG};
use minilua::{LexFault, LuaError, SyntaxFault};

fn compile(src: &str) -> ParseProto {
    ParseProto::load(src.as_bytes().to_vec()).expect("program should compile")
}

fn compile_err(src: &str) -> LuaError {
    ParseProto::load(src.as_bytes().to_vec()).expect_err("program should not compile")
}

#[test]
fn pool_insertion_dedups_and_returns_original_index() {
    let mut p = ParseProto { constants: vec![], byte_codes: vec![], locals: vec![] };
    assert_eq!(p.add_const(ValueG::Integer(5)), 0);
    assert_eq!(p.add_const(ValueG::Str(b"x".to_vec())), 1);
    assert_eq!(p.add_const(ValueG::Boolean(true)), 2);
    let len_before = p.constants.len();
    // inserting already-present values changes nothing and returns the
    // original indices
    assert_eq!(p.add_const(ValueG::Integer(5)), 0);
    assert_eq!(p.add_const(ValueG::Str(b"x".to_vec())), 1);
    assert_eq!(p.add_const(ValueG::Boolean(true)), 2);
    assert_eq!(p.constants.len(), len_before);
    // native functions compare by identity of the built-in
    assert_eq!(p.add_const(ValueG::NativeFunction(NativeFn::Print)), 3);
    assert_eq!(p.add_const(ValueG::NativeFunction(NativeFn::Print)), 3);
}

#[test]
fn shadowing_resolves_to_most_recent_declaration() {
    let p = compile("local x = 1 local x = 2 print(x)");
    assert_eq!(p.locals, vec![b"x".to_vec(), b"x".to_vec()]);
    // the read of x inside the call copies from slot 1, never slot 0
    assert_eq!(
        p.byte_codes,
        vec![
            ByteCode::LoadInt(0, 1),
            ByteCode::LoadInt(1, 2),
            ByteCode::GetGlobal(2, 0),
            ByteCode::Move(3, 1),
            ByteCode::Call(2, 3),
        ]
    );
}

#[test]
fn get_local_scans_backward() {
    let p = compile("local x = 1 local y = 2 local x = 3");
    assert_eq!(p.get_local(&b"x".to_vec()), Some(2));
    assert_eq!(p.get_local(&b"y".to_vec()), Some(1));
    assert_eq!(p.get_local(&b"z".to_vec()), None);
}

#[test]
fn print_hello_pool_and_instructions() {
    let p = compile("print(\"hello\")");
    assert_eq!(
        p.constants,
        vec![ValueG::Str(b"print".to_vec()), ValueG::Str(b"hello".to_vec())]
    );
    assert_eq!(
        p.byte_codes,
        vec![ByteCode::GetGlobal(0, 0), ByteCode::LoadConst(1, 1), ByteCode::Call(0, 1)]
    );
}

#[test]
fn global_store_of_integer_literal() {
    let p = compile("x = 10");
    assert_eq!(p.constants, vec![ValueG::Str(b"x".to_vec()), ValueG::Integer(10)]);
    assert_eq!(p.byte_codes, vec![ByteCode::SetGlobalConst(0, 1)]);
}

#[test]
fn global_store_of_other_global_by_name() {
    let p = compile("x = 1 y = x");
    assert_eq!(
        p.constants,
        vec![ValueG::Str(b"x".to_vec()), ValueG::Integer(1), ValueG::Str(b"y".to_vec())]
    );
    assert_eq!(
        p.byte_codes,
        vec![ByteCode::SetGlobalConst(0, 1), ByteCode::SetGlobalGlobal(2, 0)]
    );
}

#[test]
fn global_store_of_local_value() {
    let p = compile("local a = 5 x = a");
    assert_eq!(p.byte_codes, vec![ByteCode::LoadInt(0, 5), ByteCode::SetGlobal(0, 0)]);
    assert_eq!(p.constants, vec![ValueG::Str(b"x".to_vec())]);
}

#[test]
fn small_integer_becomes_inline_immediate_large_goes_to_pool() {
    let p = compile("local a = 32767 local b = 32768");
    assert_eq!(p.byte_codes[0], ByteCode::LoadInt(0, 32767));
    assert_eq!(p.byte_codes[1], ByteCode::LoadConst(1, 0));
    assert_eq!(p.constants, vec![ValueG::Integer(32768)]);
}

#[test]
fn local_initializer_sees_outer_scope() {
    // the initializer of the second x reads the first x, not itself
    let p = compile("local x = 7 local x = x");
    assert_eq!(p.byte_codes, vec![ByteCode::LoadInt(0, 7), ByteCode::Move(1, 0)]);
}

#[test]
fn call_with_local_argument_uses_scratch_above_locals() {
    let p = compile("local a = 1 print(a)");
    assert_eq!(
        p.byte_codes,
        vec![
            ByteCode::LoadInt(0, 1),
            ByteCode::GetGlobal(1, 0),
            ByteCode::Move(2, 0),
            ByteCode::Call(1, 2),
        ]
    );
}

#[test]
fn literal_kinds_in_local_initializers() {
    let p = compile("local a = true local b = false local c = Nil local d = \"s\"");
    assert_eq!(
        p.byte_codes,
        vec![
            ByteCode::LoadBool(0, true),
            ByteCode::LoadBool(1, false),
            ByteCode::LoadNil(2),
            ByteCode::LoadConst(3, 0),
        ]
    );
    assert_eq!(p.constants, vec![ValueG::Str(b"s".to_vec())]);
}

#[test]
fn comments_and_whitespace_are_skipped() {
    let p = compile("x = 1 -- trailing words\r\n\ty = 2");
    assert_eq!(p.byte_codes.len(), 2);
    assert_eq!(p.constants.len(), 4);
}

#[test]
fn syntax_error_missing_name_after_local() {
    assert_eq!(compile_err("local = 1"), LuaError::Syntax(SyntaxFault::ExpectedName));
}

#[test]
fn syntax_error_missing_assign_after_local_name() {
    assert_eq!(compile_err("local x 1"), LuaError::Syntax(SyntaxFault::ExpectedAssign));
}

#[test]
fn syntax_error_missing_left_paren() {
    assert_eq!(compile_err("print 1"), LuaError::Syntax(SyntaxFault::ExpectedParenLeft));
}

#[test]
fn syntax_error_missing_right_paren() {
    assert_eq!(compile_err("print(1"), LuaError::Syntax(SyntaxFault::ExpectedParenRight));
}

#[test]
fn syntax_error_bad_expression_token() {
    assert_eq!(compile_err("local x = )"), LuaError::Syntax(SyntaxFault::InvalidExpression));
}

#[test]
fn syntax_error_bad_global_assignment_rhs() {
    assert_eq!(compile_err("x = )"), LuaError::Syntax(SyntaxFault::InvalidAssignRhs));
}

#[test]
fn lexical_error_unexpected_byte() {
    assert_eq!(compile_err("x = $"), LuaError::Lexical(LexFault::UnexpectedByte));
}

#[test]
fn lexical_error_unterminated_string() {
    assert_eq!(compile_err("x = \"abc"), LuaError::Lexical(LexFault::UnterminatedString));
}

#[test]
fn lexical_error_fraction_exponent_and_hex_forms() {
    assert_eq!(compile_err("x = 1.5"), LuaError::Lexical(LexFault::UnsupportedNumericForm));
    assert_eq!(compile_err("x = 2e9"), LuaError::Lexical(LexFault::UnsupportedNumericForm));
    assert_eq!(compile_err("x = 0x10"), LuaError::Lexical(LexFault::UnsupportedNumericForm));
}

#[test]
fn lexical_error_integer_overflow() {
    assert_eq!(
        compile_err("x = 99999999999999999999"),
        LuaError::Lexical(LexFault::NumberOverflow)
    );
    // the largest value that still fits is accepted
    let p = compile("x = 9223372036854775807");
    assert_eq!(p.constants[1], ValueG::Integer(i64::MAX));
}

#[test]
fn stray_top_level_tokens_are_skipped() {
    let p = compile("; x = 1 ;");
    assert_eq!(p.byte_codes, vec![ByteCode::SetGlobalConst(0, 1)]);
}

#[test]
fn lexer_two_character_operators() {
    let mut lx = Lexer::new(b":: : ~= == = // / >> >= > << <= <".to_vec());
    let expect: Vec<Token> = vec![
        TokenG::DoubColon,
        TokenG::Colon,
        TokenG::NotEq,
        TokenG::Equal,
        TokenG::Assign,
        TokenG::Idiv,
        TokenG::Div,
        TokenG::ShiftR,
        TokenG::GreEq,
        TokenG::Greater,
        TokenG::ShiftL,
        TokenG::LesEq,
        TokenG::Less,
        TokenG::EOS,
    ];
    for want in expect {
        assert_eq!(lx.next().unwrap(), want);
    }
}

#[test]
fn lexer_keywords_are_case_sensitive() {
    let mut lx = Lexer::new(b"local Nil nil while function".to_vec());
    assert_eq!(lx.next().unwrap(), TokenG::Local);
    assert_eq!(lx.next().unwrap(), TokenG::Nil);
    assert_eq!(lx.next().unwrap(), TokenG::Name(b"nil".to_vec()));
    assert_eq!(lx.next().unwrap(), TokenG::While);
    assert_eq!(lx.next().unwrap(), TokenG::Function);
    assert_eq!(lx.next().unwrap(), TokenG::EOS);
}

#[test]
fn lexer_peek_buffers_one_token() {
    let mut lx = Lexer::new(b"a = 1".to_vec());
    assert_eq!(lx.peek().unwrap(), &TokenG::Name(b"a".to_vec()));
    assert_eq!(lx.peek().unwrap(), &TokenG::Name(b"a".to_vec()));
    assert_eq!(lx.next().unwrap(), TokenG::Name(b"a".to_vec()));
    assert_eq!(lx.next().unwrap(), TokenG::Assign);
    assert_eq!(lx.next().unwrap(), TokenG::Integer(1));
    assert_eq!(lx.next().unwrap(), TokenG::EOS);
    assert_eq!(lx.next().unwrap(), TokenG::EOS);
}

#[test]
fn lexer_minus_is_subtraction_unless_doubled() {
    let mut lx = Lexer::new(b"- --x\n-".to_vec());
    assert_eq!(lx.next().unwrap(), TokenG::Sub);
    assert_eq!(lx.next().unwrap(), TokenG::Sub);
    assert_eq!(lx.next().unwrap(), TokenG::EOS);
}

#[test]
fn lexer_single_quoted_strings() {
    let mut lx = Lexer::new(b"'ab' \"cd\"".to_vec());
    assert_eq!(lx.next().unwrap(), TokenG::Str(b"ab".to_vec()));
    assert_eq!(lx.next().unwrap(), TokenG::Str(b"cd".to_vec()));
}

#[test]
fn value_equality_is_structural_except_native_identity() {
    let a: Value = ValueG::Str(b"x".to_vec());
    let b: Value = ValueG::Str(b"x".to_vec());
    assert!(a.equals(&b));
    assert!(!a.equals(&ValueG::Str(b"y".to_vec())));
    assert!(!ValueG::Integer::<Vec<u8>>(1).equals(&ValueG::Boolean(true)));
    let p: Value = ValueG::NativeFunction(NativeFn::Print);
    assert!(p.equals(&ValueG::NativeFunction(NativeFn::Print)));
    let d = a.duplicate();
    assert!(a.equals(&d));
}

#[test]
fn lexer_do_next_scans_without_buffering() {
    let mut lx = Lexer::new(b"ab + 1".to_vec());
    assert_eq!(lx.do_next().unwrap(), TokenG::Name(b"ab".to_vec()));
    assert_eq!(lx.do_next().unwrap(), TokenG::Add);
    assert_eq!(lx.do_next().unwrap(), TokenG::Integer(1));
    assert_eq!(lx.do_next().unwrap(), TokenG::EOS);
}

#[test]
fn lexer_read_char_consumes_one_byte_and_reports_zero_at_end() {
    let mut lx = Lexer::new(b"ab".to_vec());
    assert_eq!(lx.read_char(), b'a');
    assert_eq!(lx.read_char(), b'b');
    assert_eq!(lx.read_char(), 0);
    assert_eq!(lx.read_char(), 0);
}
