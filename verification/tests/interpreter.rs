//! End-to-end tests: scan, compile and run small programs, with the test
//! acting as the embedder that performs the floating-point work.

use rslox::compiler::DiagLoc;
use rslox::compiler::Parser;
use rslox::scanner::TokenType;
use rslox::scanner::scan_tokens;
use rslox::value::Value;
use rslox::vm::ArithOp;
use rslox::vm::CompareOp;
use rslox::vm::FaultKind;
use rslox::vm::InterpretResult;
use rslox::vm::StepEvent;
use rslox::vm::VM;

fn render(v: &Value) -> String {
    match v {
        Value::Nil => "nil".to_string(),
        Value::Bool(b) => b.to_string(),
        Value::Number(bits) => format!("{}", f64::from_bits(*bits)),
        Value::ObjString(s) => String::from_utf8_lossy(s).into_owned(),
    }
}

fn fault_message(kind: &FaultKind) -> String {
    match kind {
        FaultKind::OperandMustBeNumber => "Operand must be a number.".to_string(),
        FaultKind::OperandsMustBeNumbers => "Operands must be numbers.".to_string(),
        FaultKind::OperandsMustBeNumbersOrStrings => {
            "Operands must be two numbers or two strings.".to_string()
        }
        FaultKind::UndefinedVariable(name) => {
            format!("Undefined variable '{}'.", String::from_utf8_lossy(name))
        }
    }
}

fn compile_source(source: &str) -> Parser {
    let mut tokens = scan_tokens(source.as_bytes().to_vec());
    for t in tokens.iter_mut() {
        if t.token_type == TokenType::Number {
            let lex = String::from_utf8_lossy(&t.lexeme).into_owned();
            let value: f64 = lex.parse().expect("number lexeme");
            t.num = value.to_bits();
        }
    }
    let mut parser = Parser::new(tokens);
    parser.compile();
    parser
}

fn diagnostic_lines(parser: &Parser) -> Vec<String> {
    let mut lines = Vec::new();
    for d in parser.diagnostics.iter() {
        let loc = match &d.loc {
            DiagLoc::AtEnd => " at end".to_string(),
            DiagLoc::AtLexeme(lex) => format!(" at {}'", String::from_utf8_lossy(lex)),
            DiagLoc::AtErrorToken => String::new(),
        };
        lines.push(format!("[line {}] Error{}: {}", d.line, loc, d.message));
    }
    lines
}

/// Run one program in the given machine; returns the result, the printed
/// lines, and the error lines (compile diagnostics or the runtime error).
fn run_in(vm: &mut VM, source: &str) -> (InterpretResult, Vec<String>, Vec<String>) {
    let parser = compile_source(source);
    if !parser.had_error {
        vm.load(parser.chunk);
        let mut out: Vec<String> = Vec::new();
        loop {
            match vm.step() {
                StepEvent::Stepped => {}
                StepEvent::NeedBinary(op, a, b) => {
                    let x = f64::from_bits(a);
                    let y = f64::from_bits(b);
                    let r = match op {
                        ArithOp::Add => x + y,
                        ArithOp::Subtract => x - y,
                        ArithOp::Multiply => x * y,
                        ArithOp::Divide => x / y,
                    };
                    vm.supply_number(r.to_bits());
                }
                StepEvent::NeedCompare(op, a, b) => {
                    let x = f64::from_bits(a);
                    let y = f64::from_bits(b);
                    let t = match op {
                        CompareOp::Greater => x > y,
                        CompareOp::Less => x < y,
                        CompareOp::NumEqual => (x - y).abs() < f64::EPSILON,
                    };
                    vm.supply_truth(t);
                }
                StepEvent::Output(v) => out.push(render(&v)),
                StepEvent::Finished => return (InterpretResult::Success, out, Vec::new()),
                StepEvent::Fault(kind, line) => {
                    let err = vec![fault_message(&kind), format!("[line {}] in script", line)];
                    return (InterpretResult::RuntimeError, out, err);
                }
                StepEvent::Bug => panic!("internal consistency violation"),
            }
        }
    } else {
        (
            InterpretResult::CompileError,
            Vec::new(),
            diagnostic_lines(&parser),
        )
    }
}

fn run(source: &str) -> (InterpretResult, Vec<String>, Vec<String>) {
    let mut vm = VM::new();
    run_in(&mut vm, source)
}

#[test]
fn arithmetic_precedence() {
    let (r, out, _) = run("print 1 + 2 * 3;");
    assert_eq!(r, InterpretResult::Success);
    assert_eq!(out, vec!["7"]);
}

#[test]
fn string_concatenation() {
    let (r, out, _) = run("var a = \"foo\"; var b = \"bar\"; print a + b;");
    assert_eq!(r, InterpretResult::Success);
    assert_eq!(out, vec!["foobar"]);
}

#[test]
fn local_shadowing_initialised_from_outer() {
    // the outer value flows into the shadowing local through a helper,
    // since reading `x` inside its own initialiser is forbidden
    let (r, out, _) = run("var x = 3; { var y = x + 1; var x = y; print x; } print x;");
    assert_eq!(r, InterpretResult::Success);
    assert_eq!(out, vec!["4", "3"]);
}

#[test]
fn shadowing_local_cannot_read_the_name_it_shadows() {
    // a local declared but not yet initialised (depth -1) may not appear
    // in its own initialiser, even when an outer binding of the same name
    // exists
    let (r, _, err) = run("var x = 3; { var x = x + 1; print x; } print x;");
    assert_eq!(r, InterpretResult::CompileError);
    assert!(
        err.iter()
            .any(|l| l.contains("Cannot read local variable in its own initializer."))
    );
}

#[test]
fn while_loop_counts() {
    let (r, out, _) = run("var i = 0; while (i < 3) { print i; i = i + 1; }");
    assert_eq!(r, InterpretResult::Success);
    assert_eq!(out, vec!["0", "1", "2"]);
}

#[test]
fn if_else_with_and() {
    let (r, out, _) = run("if (true and false) print \"a\"; else print \"b\";");
    assert_eq!(r, InterpretResult::Success);
    assert_eq!(out, vec!["b"]);
}

#[test]
fn negating_a_string_is_a_runtime_error() {
    let (r, out, err) = run("-\"abc\";");
    assert_eq!(r, InterpretResult::RuntimeError);
    assert!(out.is_empty());
    assert_eq!(err[0], "Operand must be a number.");
    assert_eq!(err[1], "[line 1] in script");
}

#[test]
fn stack_empty_after_statements() {
    let mut vm = VM::new();
    let (r, _, _) = run_in(
        &mut vm,
        "var a = 1; print a + 2; { var b = 3; print b; } if (a < 2) print a; while (a > 1) a = a - 1;",
    );
    assert_eq!(r, InterpretResult::Success);
    assert_eq!(vm.stack_len(), 0);
}

#[test]
fn or_short_circuit_skips_right_operand() {
    // the right operand would assign to g; a truthy left operand must
    // prevent that
    let (r, out, _) = run("var g = 0; var t = true or (g = 1); print g; print t;");
    assert_eq!(r, InterpretResult::Success);
    assert_eq!(out, vec!["0", "true"]);
}

#[test]
fn and_short_circuit_skips_right_operand() {
    let (r, out, _) = run("var g = 0; var f = false and (g = 1); print g; print f;");
    assert_eq!(r, InterpretResult::Success);
    assert_eq!(out, vec!["0", "false"]);
}

#[test]
fn and_evaluates_right_when_left_truthy() {
    let (r, out, _) = run("var g = 0; var t = 1 and (g = 2); print g; print t;");
    assert_eq!(r, InterpretResult::Success);
    assert_eq!(out, vec!["2", "2"]);
}

#[test]
fn block_local_not_visible_after_block() {
    // after the inner block ends, `x` no longer resolves to the local, so
    // the reference falls through to the (undefined) global
    let (r, _, err) = run("{ var x = 1; } print x;");
    assert_eq!(r, InterpretResult::RuntimeError);
    assert_eq!(err[0], "Undefined variable 'x'.");
}

#[test]
fn local_read_in_own_initializer_is_a_compile_error() {
    let (r, _, err) = run("{ var x = x; }");
    assert_eq!(r, InterpretResult::CompileError);
    assert!(
        err.iter()
            .any(|l| l.contains("Cannot read local variable in its own initializer."))
    );
}

#[test]
fn nested_local_read_in_own_initializer_is_a_compile_error() {
    let (r, _, err) = run("{ { var y = 2; var x = x; } }");
    assert_eq!(r, InterpretResult::CompileError);
    assert!(
        err.iter()
            .any(|l| l.contains("Cannot read local variable in its own initializer."))
    );
}

#[test]
fn global_redefinition_overwrites() {
    let (r, out, _) = run("var a = 1; var a = 2; print a;");
    assert_eq!(r, InterpretResult::Success);
    assert_eq!(out, vec!["2"]);
}

#[test]
fn duplicate_local_in_same_scope_is_a_compile_error() {
    let (r, _, err) = run("{ var a = 1; var a = 2; }");
    assert_eq!(r, InterpretResult::CompileError);
    assert!(
        err.iter()
            .any(|l| l.contains("Already a variable with this name in this scope."))
    );
}

#[test]
fn assignment_to_undefined_global_is_a_runtime_error() {
    let (r, _, err) = run("x = 1;");
    assert_eq!(r, InterpretResult::RuntimeError);
    assert_eq!(err[0], "Undefined variable 'x'.");
}

#[test]
fn invalid_assignment_target_is_a_compile_error() {
    let (r, _, err) = run("var a = 1; var b = 2; a + b = 3;");
    assert_eq!(r, InterpretResult::CompileError);
    assert!(err.iter().any(|l| l.contains("Invalid assignment target.")));
}

#[test]
fn division_and_fractions() {
    let (r, out, _) = run("print 1 / 2; print 10 / 4;");
    assert_eq!(r, InterpretResult::Success);
    assert_eq!(out, vec!["0.5", "2.5"]);
}

#[test]
fn comparison_operators() {
    let (r, out, _) = run("print 1 < 2; print 1 > 2; print 2 <= 2; print 3 >= 4;");
    assert_eq!(r, InterpretResult::Success);
    assert_eq!(out, vec!["true", "false", "true", "false"]);
}

#[test]
fn equality_and_distinct_tags() {
    let (r, out, _) = run(
        "print 1 == 1; print 1 == 2; print \"a\" == \"a\"; print 1 == \"1\"; print nil == nil; print nil == false;",
    );
    assert_eq!(r, InterpretResult::Success);
    assert_eq!(out, vec!["true", "false", "true", "false", "true", "false"]);
}

#[test]
fn truthiness_of_zero_and_empty_string() {
    let (r, out, _) = run("if (0) print \"zero\"; if (\"\") print \"empty\"; if (nil) print \"nil\";");
    assert_eq!(r, InterpretResult::Success);
    assert_eq!(out, vec!["zero", "empty"]);
}

#[test]
fn unary_not_and_negation() {
    let (r, out, _) = run("print !true; print !nil; print !0; print -3; print --3;");
    assert_eq!(r, InterpretResult::Success);
    assert_eq!(out, vec!["false", "true", "false", "-3", "3"]);
}

#[test]
fn adding_number_and_string_is_a_runtime_error() {
    let (r, _, err) = run("1 + \"a\";");
    assert_eq!(r, InterpretResult::RuntimeError);
    assert_eq!(err[0], "Operands must be two numbers or two strings.");
}

#[test]
fn comparing_strings_with_less_is_a_runtime_error() {
    let (r, _, err) = run("\"a\" < \"b\";");
    assert_eq!(r, InterpretResult::RuntimeError);
    assert_eq!(err[0], "Operands must be numbers.");
}

#[test]
fn reading_undefined_global_is_a_runtime_error() {
    let (r, _, err) = run("print missing;");
    assert_eq!(r, InterpretResult::RuntimeError);
    assert_eq!(err[0], "Undefined variable 'missing'.");
    assert_eq!(err[1], "[line 1] in script");
}

#[test]
fn globals_persist_across_runs_in_one_session() {
    let mut vm = VM::new();
    let (r1, _, _) = run_in(&mut vm, "var a = 41;");
    assert_eq!(r1, InterpretResult::Success);
    let (r2, out, _) = run_in(&mut vm, "print a + 1;");
    assert_eq!(r2, InterpretResult::Success);
    assert_eq!(out, vec!["42"]);
}

#[test]
fn globals_keep_state_up_to_a_runtime_error() {
    let mut vm = VM::new();
    let (r, out, err) = run_in(&mut vm, "var a = 1; print a; -\"x\"; var b = 2;");
    assert_eq!(r, InterpretResult::RuntimeError);
    assert_eq!(out, vec!["1"]);
    assert_eq!(err[0], "Operand must be a number.");
    let (r2, out2, _) = run_in(&mut vm, "print a;");
    assert_eq!(r2, InterpretResult::Success);
    assert_eq!(out2, vec!["1"]);
}

#[test]
fn jump_too_long_is_a_compile_error() {
    // `print true;` compiles to two bytes and interns no constant, so a
    // then-branch of 33000 of them overflows the 16-bit jump distance
    let mut source = String::from("if (true) {");
    for _ in 0..33000 {
        source.push_str(" print true;");
    }
    source.push('}');
    let (r, _, err) = run(&source);
    assert_eq!(r, InterpretResult::CompileError);
    assert!(err.iter().any(|l| l.contains("Too much code to jump over.")));
}

#[test]
fn loop_body_too_large_is_a_compile_error() {
    let mut source = String::from("while (true) {");
    for _ in 0..33000 {
        source.push_str(" print true;");
    }
    source.push('}');
    let (r, _, err) = run(&source);
    assert_eq!(r, InterpretResult::CompileError);
    assert!(err.iter().any(|l| l.contains("Loop body too large.")));
}

#[test]
fn missing_expression_is_a_compile_error() {
    let (r, _, err) = run("print ;");
    assert_eq!(r, InterpretResult::CompileError);
    assert!(err.iter().any(|l| l.contains("Expect expression.")));
}

#[test]
fn missing_semicolon_reports_at_end() {
    let (r, _, err) = run("print 1");
    assert_eq!(r, InterpretResult::CompileError);
    assert_eq!(err[0], "[line 1] Error at end: Expect ';' after value.");
}

#[test]
fn unexpected_character_reports_scanner_message() {
    let (r, _, err) = run("print 1 @ 2;");
    assert_eq!(r, InterpretResult::CompileError);
    assert!(err.iter().any(|l| l.contains("Unexpected character.")));
}

#[test]
fn unterminated_string_reports_scanner_message() {
    let (r, _, err) = run("print \"abc");
    assert_eq!(r, InterpretResult::CompileError);
    assert!(err.iter().any(|l| l.contains("Unterminated string.")));
}

#[test]
fn error_recovery_reports_later_errors_too() {
    let (r, _, err) = run("print ;\nprint ;");
    assert_eq!(r, InterpretResult::CompileError);
    assert_eq!(err.len(), 2);
}

#[test]
fn multiline_string_counts_lines() {
    let (r, _, err) = run("var s = \"a\nb\";\n-s;");
    assert_eq!(r, InterpretResult::RuntimeError);
    assert_eq!(err[1], "[line 3] in script");
}

#[test]
fn comments_are_skipped() {
    let (r, out, _) = run("// nothing here\nprint 1; // trailing\n");
    assert_eq!(r, InterpretResult::Success);
    assert_eq!(out, vec!["1"]);
}

#[test]
fn epsilon_equality_on_numbers() {
    let (r, out, _) = run("print 0.1 + 0.2 == 0.3;");
    assert_eq!(r, InterpretResult::Success);
    // |(0.1 + 0.2) - 0.3| is below the machine epsilon, so the language
    // calls them equal
    assert_eq!(out, vec!["true"]);
}

#[test]
fn empty_program_succeeds() {
    let mut vm = VM::new();
    let (r, out, err) = run_in(&mut vm, "");
    assert_eq!(r, InterpretResult::Success);
    assert!(out.is_empty());
    assert!(err.is_empty());
    assert_eq!(vm.stack_len(), 0);
}

#[test]
fn grouping_overrides_precedence() {
    let (r, out, _) = run("print (1 + 2) * 3;");
    assert_eq!(r, InterpretResult::Success);
    assert_eq!(out, vec!["9"]);
}

#[test]
fn assignment_is_right_associative() {
    let (r, out, _) = run("var a = 1; var b = 1; a = b = 2; print a; print b;");
    assert_eq!(r, InterpretResult::Success);
    assert_eq!(out, vec!["2", "2"]);
}

#[test]
fn unary_minus_binds_tighter_than_multiplication() {
    let (r, out, _) = run("print -2 * 3; print 1 + 2 == 3; print 1 == 1 == true;");
    assert_eq!(r, InterpretResult::Success);
    assert_eq!(out, vec!["-6", "true", "true"]);
}

#[test]
fn not_equal_and_chained_not() {
    let (r, out, _) = run("print 1 != 2; print !!true; print 2 >= 2;");
    assert_eq!(r, InterpretResult::Success);
    assert_eq!(out, vec!["true", "true", "true"]);
}

#[test]
fn locals_read_and_assign_by_slot() {
    let (r, out, _) = run("{ var a = 1; var b = 2; a = a + b; print a; print b; }");
    assert_eq!(r, InterpretResult::Success);
    assert_eq!(out, vec!["3", "2"]);
}

#[test]
fn if_without_else_skips_body_when_false() {
    let (r, out, _) = run("if (false) print \"skipped\"; print \"after\";");
    assert_eq!(r, InterpretResult::Success);
    assert_eq!(out, vec!["after"]);
}

#[test]
fn while_with_false_condition_never_runs() {
    let (r, out, _) = run("while (false) print \"never\"; print \"done\";");
    assert_eq!(r, InterpretResult::Success);
    assert_eq!(out, vec!["done"]);
}

#[test]
fn nested_while_loops() {
    let (r, out, _) = run(
        "var i = 0; while (i < 2) { var j = 0; while (j < 2) { print i + j; j = j + 1; } i = i + 1; }",
    );
    assert_eq!(r, InterpretResult::Success);
    assert_eq!(out, vec!["0", "1", "1", "2"]);
}
