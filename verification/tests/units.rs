//! Unit-level tests of the scanner, the chunk format and the compiled
//! bytecode's structural invariants: parallel line map, valid constant
//! operands, and jump targets on instruction boundaries.

use rslox::chunk::OpCode;
use rslox::chunk::opcode_from_u8;
use rslox::compiler::Parser;
use rslox::globals::Globals;
use rslox::scanner::Scanner;
use rslox::scanner::TokenType;
use rslox::scanner::scan_tokens;
use rslox::value::Value;
use rslox::value::values_equal;

fn kinds_of(source: &str) -> Vec<TokenType> {
    let tokens = scan_tokens(source.as_bytes().to_vec());
    tokens.iter().map(|t| t.token_type).collect()
}

#[test]
fn scanner_punctuation_and_operators() {
    assert_eq!(
        kinds_of("(){},.-+;/* ! != = == > >= < <="),
        vec![
            TokenType::LeftParen,
            TokenType::RightParen,
            TokenType::LeftBrace,
            TokenType::RightBrace,
            TokenType::Comma,
            TokenType::Dot,
            TokenType::Minus,
            TokenType::Plus,
            TokenType::Semicolon,
            TokenType::Slash,
            TokenType::Star,
            TokenType::Bang,
            TokenType::BangEqual,
            TokenType::Equal,
            TokenType::EqualEqual,
            TokenType::Greater,
            TokenType::GreaterEqual,
            TokenType::Less,
            TokenType::LessEqual,
            TokenType::Eof,
        ]
    );
}

#[test]
fn scanner_keywords_and_identifiers() {
    assert_eq!(
        kinds_of("and class else false for fun if nil or print return super this true var while andy fnord"),
        vec![
            TokenType::And,
            TokenType::Class,
            TokenType::Else,
            TokenType::False,
            TokenType::For,
            TokenType::Fun,
            TokenType::If,
            TokenType::Nil,
            TokenType::Or,
            TokenType::Print,
            TokenType::Return,
            TokenType::Super,
            TokenType::This,
            TokenType::True,
            TokenType::Var,
            TokenType::While,
            TokenType::Identifier,
            TokenType::Identifier,
            TokenType::Eof,
        ]
    );
}

#[test]
fn scanner_number_lexemes() {
    let tokens = scan_tokens(b"12 3.25 7.".to_vec());
    assert_eq!(tokens[0].token_type, TokenType::Number);
    assert_eq!(tokens[0].lexeme, b"12".to_vec());
    assert_eq!(tokens[1].token_type, TokenType::Number);
    assert_eq!(tokens[1].lexeme, b"3.25".to_vec());
    // a dot without a following digit is not part of the number
    assert_eq!(tokens[2].token_type, TokenType::Number);
    assert_eq!(tokens[2].lexeme, b"7".to_vec());
    assert_eq!(tokens[3].token_type, TokenType::Dot);
}

#[test]
fn scanner_string_keeps_quotes_and_lines() {
    let tokens = scan_tokens(b"\"a\nb\" x".to_vec());
    assert_eq!(tokens[0].token_type, TokenType::String);
    assert_eq!(tokens[0].lexeme, b"\"a\nb\"".to_vec());
    assert_eq!(tokens[0].line, 2);
    assert_eq!(tokens[1].line, 2);
}

#[test]
fn scanner_error_tokens() {
    let tokens = scan_tokens(b"@ \"open".to_vec());
    assert_eq!(tokens[0].token_type, TokenType::Error);
    assert_eq!(tokens[0].message, "Unexpected character.");
    assert_eq!(tokens[1].token_type, TokenType::Error);
    assert_eq!(tokens[1].message, "Unterminated string.");
    assert_eq!(tokens[2].token_type, TokenType::Eof);
}

#[test]
fn scan_token_is_on_demand() {
    let mut scanner = Scanner::new(b"var x".to_vec());
    let t1 = scanner.scan_token();
    assert_eq!(t1.token_type, TokenType::Var);
    let t2 = scanner.scan_token();
    assert_eq!(t2.token_type, TokenType::Identifier);
    assert_eq!(t2.lexeme, b"x".to_vec());
    let t3 = scanner.scan_token();
    assert_eq!(t3.token_type, TokenType::Eof);
}

fn compile_ok(source: &str) -> rslox::chunk::Chunk {
    let mut tokens = scan_tokens(source.as_bytes().to_vec());
    for t in tokens.iter_mut() {
        if t.token_type == TokenType::Number {
            let lex = String::from_utf8_lossy(&t.lexeme).into_owned();
            let value: f64 = lex.parse().expect("number lexeme");
            t.num = value.to_bits();
        }
    }
    let mut parser = Parser::new(tokens);
    let ok = parser.compile();
    assert!(ok, "program should compile");
    parser.chunk
}

/// Walk the instruction stream from offset 0, checking the structural
/// invariants as it goes, and return the set of instruction boundaries.
fn check_chunk_structure(chunk: &rslox::chunk::Chunk) -> Vec<usize> {
    let code_len = chunk.code_len();
    // the line map is parallel to the code
    assert_eq!(chunk.lines.len(), code_len);
    let mut boundaries: Vec<usize> = Vec::new();
    let mut jumps: Vec<(usize, usize)> = Vec::new();
    let mut offset = 0;
    while offset < code_len {
        boundaries.push(offset);
        let op = opcode_from_u8(chunk.read_byte(offset)).expect("valid opcode");
        let size = match op {
            OpCode::OpConstant
            | OpCode::OpDefineGlobal
            | OpCode::OpGetLocal
            | OpCode::OpSetLocal
            | OpCode::OpGetGlobal
            | OpCode::OpSetGlobal => 2,
            OpCode::OpJump | OpCode::OpJumpIfFalse | OpCode::OpLoop => 3,
            _ => 1,
        };
        assert!(offset + size <= code_len, "instruction fits in code");
        match op {
            OpCode::OpConstant
            | OpCode::OpDefineGlobal
            | OpCode::OpGetGlobal
            | OpCode::OpSetGlobal => {
                // every constant operand indexes the pool
                let idx = chunk.read_byte(offset + 1) as usize;
                assert!(idx < chunk.constants_len(), "constant operand in range");
            }
            OpCode::OpJump | OpCode::OpJumpIfFalse => {
                let hi = chunk.read_byte(offset + 1) as usize;
                let lo = chunk.read_byte(offset + 2) as usize;
                let target = offset + 3 + (hi * 256 + lo);
                assert!(target <= code_len, "jump target in bounds");
                jumps.push((offset, target));
            }
            OpCode::OpLoop => {
                let hi = chunk.read_byte(offset + 1) as usize;
                let lo = chunk.read_byte(offset + 2) as usize;
                let distance = hi * 256 + lo;
                assert!(distance <= offset + 3, "loop target non-negative");
                jumps.push((offset, offset + 3 - distance));
            }
            _ => {}
        }
        offset += size;
    }
    assert_eq!(offset, code_len, "instructions exactly cover the code");
    for (site, target) in jumps {
        assert!(
            target == code_len || boundaries.contains(&target),
            "jump at {} lands on a boundary, not inside an instruction (target {})",
            site,
            target
        );
    }
    boundaries
}

#[test]
fn compiled_chunk_structure_simple() {
    let chunk = compile_ok("print 1 + 2 * 3;");
    check_chunk_structure(&chunk);
}

#[test]
fn compiled_chunk_structure_with_jumps() {
    let chunk = compile_ok(
        "var i = 0; while (i < 3) { if (i == 1 and true) print i; else print \"o\"; i = i + 1 or 0; }",
    );
    check_chunk_structure(&chunk);
}

#[test]
fn compiled_chunk_structure_with_locals() {
    let chunk = compile_ok("{ var a = 1; { var b = a; print b; } }");
    check_chunk_structure(&chunk);
}

#[test]
fn compiled_chunk_ends_with_return() {
    let chunk = compile_ok("print 1;");
    let last = chunk.code_len() - 1;
    assert_eq!(
        opcode_from_u8(chunk.read_byte(last)).unwrap(),
        OpCode::OpReturn
    );
}

#[test]
fn too_many_constants_in_one_chunk() {
    // 257 distinct number literals need 257 pool slots; the pool caps at 256
    let mut source = String::new();
    for i in 0..257 {
        source.push_str(&format!("{};", i));
    }
    let mut tokens = scan_tokens(source.as_bytes().to_vec());
    for t in tokens.iter_mut() {
        if t.token_type == TokenType::Number {
            let lex = String::from_utf8_lossy(&t.lexeme).into_owned();
            t.num = lex.parse::<f64>().unwrap().to_bits();
        }
    }
    let mut parser = Parser::new(tokens);
    let ok = parser.compile();
    assert!(!ok);
    assert!(
        parser
            .diagnostics
            .iter()
            .any(|d| d.message == "Too many constants in one chunk.")
    );
}

#[test]
fn values_equal_concrete_cases() {
    let one = Value::Number(1.0f64.to_bits());
    let s1 = Value::ObjString(b"a".to_vec());
    let s2 = Value::ObjString(b"a".to_vec());
    let s3 = Value::ObjString(b"b".to_vec());
    // the embedder's verdict decides the number/number case only
    assert!(values_equal(&one, &one, true));
    assert!(!values_equal(&one, &one, false));
    assert!(values_equal(&s1, &s2, false));
    assert!(!values_equal(&s1, &s3, true));
    assert!(!values_equal(&one, &s1, true));
    assert!(values_equal(&Value::Nil, &Value::Nil, false));
    assert!(!values_equal(&Value::Nil, &Value::Bool(false), true));
    assert!(values_equal(&Value::Bool(true), &Value::Bool(true), false));
}

#[test]
fn epsilon_comparison_properties_on_doubles() {
    // the embedder's numeric equality: reflexive and symmetric on finite
    // doubles, as the epsilon comparison promises
    let eq = |a: f64, b: f64| (a - b).abs() < f64::EPSILON;
    for v in [0.0f64, 1.0, -3.5, 1e-20, 123456.75] {
        assert!(eq(v, v));
    }
    assert_eq!(eq(0.1 + 0.2, 0.3), eq(0.3, 0.1 + 0.2));
    assert!(!eq(1.0, 2.0));
}

#[test]
fn negate_bits_is_ieee_negation() {
    let bits = 3.5f64.to_bits();
    let negated = rslox::value::negate_number_bits(bits);
    assert_eq!(f64::from_bits(negated), -3.5);
    assert_eq!(rslox::value::negate_number_bits(negated), bits);
}

#[test]
fn globals_define_lookup_assign() {
    let mut g = Globals::new();
    assert!(g.lookup(&b"a".to_vec()).is_none());
    assert!(!g.assign(&b"a".to_vec(), Value::Number(1)));
    g.define(b"a".to_vec(), Value::Number(1));
    match g.lookup(&b"a".to_vec()) {
        Some(Value::Number(n)) => assert_eq!(n, 1),
        other => panic!("unexpected {:?}", other),
    }
    assert!(g.assign(&b"a".to_vec(), Value::Number(2)));
    match g.lookup(&b"a".to_vec()) {
        Some(Value::Number(n)) => assert_eq!(n, 2),
        other => panic!("unexpected {:?}", other),
    }
    g.define(b"a".to_vec(), Value::Bool(true));
    match g.lookup(&b"a".to_vec()) {
        Some(Value::Bool(b)) => assert!(b),
        other => panic!("unexpected {:?}", other),
    }
}

#[test]
fn decoder_walks_compiled_chunk() {
    let chunk = compile_ok("var i = 0; while (i < 2) { print i; i = i + 1; }");
    let mut offset = 0;
    let mut saw_loop = false;
    let mut saw_jump_if_false = false;
    while offset < chunk.code_len() {
        let (instr, next) = chunk
            .decode_instruction(offset)
            .expect("compiled code decodes");
        match instr {
            rslox::chunk::Instr::WithDistance(OpCode::OpLoop, d) => {
                saw_loop = true;
                // the loop jumps backward to re-test the condition
                assert!((d as usize) <= offset + 3);
            }
            rslox::chunk::Instr::WithDistance(OpCode::OpJumpIfFalse, d) => {
                saw_jump_if_false = true;
                assert!(offset + 3 + d as usize <= chunk.code_len());
            }
            rslox::chunk::Instr::WithConstant(_, idx) => {
                assert!((idx as usize) < chunk.constants_len());
            }
            _ => {}
        }
        assert!(next > offset);
        offset = next;
    }
    assert!(saw_loop);
    assert!(saw_jump_if_false);
    // past the end nothing decodes
    assert!(chunk.decode_instruction(chunk.code_len()).is_none());
}

#[test]
fn opcode_bytes_round_trip() {
    for b in 0u8..24 {
        let op = opcode_from_u8(b).expect("valid");
        assert_eq!(rslox::chunk::opcode_to_u8(op), b);
    }
    assert!(opcode_from_u8(24).is_none());
    assert!(opcode_from_u8(255).is_none());
}
