use tac::chunk::{Chunk, Instruction, LineStart};
use tac::compiler::{parse_literal, Compiler, Literal};
use tac::error::{error_at, script_line, TACError};
use tac::token::{Token, TokenKind};
use tac::value::Value;

/// The chunk that `source` compiles to, and the diagnostics.
fn compile(source: &str) -> (Chunk, Vec<String>, Result<(), TACError>) {
    let mut chunk = Chunk::new();
    let mut reports = vec!["left over".to_string()];
    let result = Compiler::compile(source, &mut chunk, &mut reports);
    (chunk, reports, result)
}

fn code(source: &str) -> Vec<Instruction> {
    let (chunk, reports, result) = compile(source);
    assert_eq!(reports, Vec::<String>::new());
    assert_eq!(result, Ok(()));
    chunk.code
}

fn errors(source: &str) -> Vec<String> {
    let (_, reports, result) = compile(source);
    assert_eq!(result, Err(TACError::CompileError));
    assert!(!reports.is_empty());
    reports
}

fn is_i64(value: Value, want: i64) -> bool {
    matches!(value, Value::I64(v) if v == want)
}

#[test]
fn empty_source_is_a_halt() {
    let (chunk, reports, result) = compile("");
    assert_eq!(result, Ok(()));
    assert!(reports.is_empty());
    assert_eq!(chunk.code, vec![Instruction::Halt]);
    assert_eq!(chunk.lines, vec![LineStart::new(0, 1)]);
}

#[test]
fn blank_lines_and_comments_are_no_statements() {
    assert_eq!(code("\n\n   \n# nothing\n\t# more\n"), vec![Instruction::Halt]);
}

#[test]
fn compiles_a_print_of_a_sum() {
    let (chunk, _, result) = compile("print 1 + 2");
    assert_eq!(result, Ok(()));
    assert_eq!(
        chunk.code,
        vec![
            Instruction::Constant(0),
            Instruction::Constant(1),
            Instruction::Add,
            Instruction::Print(false),
            Instruction::Halt,
        ]
    );
    assert!(is_i64(chunk.get_constant(0), 1));
    assert!(is_i64(chunk.get_constant(1), 2));
    assert_eq!(chunk.lines, vec![LineStart::new(0, 1)]);
}

#[test]
fn compiles_assignments_with_lines() {
    let (chunk, _, result) = compile("x = 10\ny = x * 2\nprintln y");
    assert_eq!(result, Ok(()));
    assert_eq!(
        chunk.code,
        vec![
            Instruction::GetOrCreateVar(0),
            Instruction::Constant(0),
            Instruction::Assign,
            Instruction::GetOrCreateVar(1),
            Instruction::GetVar(0),
            Instruction::Constant(1),
            Instruction::Multiply,
            Instruction::Assign,
            Instruction::GetVar(1),
            Instruction::Print(true),
            Instruction::Halt,
        ]
    );
    assert_eq!(chunk.names, vec!["x".to_string(), "y".to_string()]);
    assert_eq!(
        chunk.lines,
        vec![LineStart::new(0, 1), LineStart::new(3, 2), LineStart::new(8, 3)]
    );
    for index in 1..chunk.code.len() {
        assert!(chunk.get_line(index) >= chunk.get_line(index - 1));
    }
}

#[test]
fn compiles_every_binary_operator() {
    let cases = [
        ("+", vec![Instruction::Add]),
        ("-", vec![Instruction::Subtract]),
        ("*", vec![Instruction::Multiply]),
        ("/", vec![Instruction::Divide]),
        ("%", vec![Instruction::Modulo]),
        ("<<", vec![Instruction::ShiftLeft]),
        (">>", vec![Instruction::ShiftRight]),
        ("==", vec![Instruction::Equal]),
        ("!=", vec![Instruction::Equal, Instruction::Not]),
        ("<", vec![Instruction::Less]),
        ("<=", vec![Instruction::Greater, Instruction::Not]),
        (">", vec![Instruction::Greater]),
        (">=", vec![Instruction::Less, Instruction::Not]),
    ];
    for (operator, instructions) in cases {
        let mut want = vec![Instruction::GetVar(0), Instruction::GetVar(1)];
        want.extend(instructions);
        want.push(Instruction::Print(false));
        want.push(Instruction::Halt);
        assert_eq!(code(&format!("print a {} b", operator)), want, "{}", operator);
    }
}

#[test]
fn compiles_unary_operators() {
    assert_eq!(
        code("print !x\nprint -5"),
        vec![
            Instruction::GetVar(0),
            Instruction::Not,
            Instruction::Print(false),
            Instruction::Constant(0),
            Instruction::Negate,
            Instruction::Print(false),
            Instruction::Halt,
        ]
    );
}

#[test]
fn compiles_literals_of_every_kind() {
    let (chunk, reports, result) = compile("print true\nprint false\nprint 'c'\nprint 7u64\nprint 2.5");
    assert_eq!(result, Ok(()));
    assert!(reports.is_empty());
    assert_eq!(
        chunk.code,
        vec![
            Instruction::True,
            Instruction::Print(false),
            Instruction::False,
            Instruction::Print(false),
            Instruction::Constant(0),
            Instruction::Print(false),
            Instruction::Constant(1),
            Instruction::Print(false),
            Instruction::Constant(2),
            Instruction::Print(false),
            Instruction::Halt,
        ]
    );
    assert!(matches!(chunk.get_constant(0), Value::Char('c')));
    assert!(matches!(chunk.get_constant(1), Value::U64(7)));
    assert!(matches!(chunk.get_constant(2), Value::F64(0)));
    assert_eq!(chunk.floats.len(), 1);
    assert_eq!(chunk.floats[0].constant, 2);
    assert_eq!(chunk.floats[0].numeral, "2.5");
    assert_eq!(chunk.floats[0].line, 5);
}

#[test]
fn empty_character_literal_is_its_closing_quote() {
    let (chunk, _, result) = compile("print ''");
    assert_eq!(result, Ok(()));
    assert!(matches!(chunk.get_constant(0), Value::Char('\'')));
}

#[test]
fn constants_are_not_shared() {
    let (chunk, _, _) = compile("print 1 + 1");
    assert_eq!(chunk.constants.len(), 2);
    assert_eq!(chunk.code[0], Instruction::Constant(0));
    assert_eq!(chunk.code[1], Instruction::Constant(1));
}

#[test]
fn names_are_shared() {
    assert_eq!(
        code("x = x + x"),
        vec![
            Instruction::GetOrCreateVar(0),
            Instruction::GetVar(0),
            Instruction::GetVar(0),
            Instruction::Add,
            Instruction::Assign,
            Instruction::Halt,
        ]
    );
}

#[test]
fn dereferenced_and_subscripted_targets_compile_as_plain_ones() {
    let plain = code("x = 1");
    assert_eq!(code("*x = 1"), plain);
    assert_eq!(code("x[] = 1"), plain);
}

#[test]
fn a_final_halt_is_not_doubled() {
    assert_eq!(code("halt"), vec![Instruction::Halt]);
    assert_eq!(code("halt\n"), vec![Instruction::Halt]);
    assert_eq!(code("halt\nprint 1").last(), Some(&Instruction::Halt));
    assert_eq!(code("halt\nprint 1").len(), 4);
}

#[test]
fn forward_jump_gets_the_index_of_its_label() {
    assert_eq!(
        code("x = 5\nif x < 10 goto L1\nprintln 99\nL1:\nprintln x"),
        vec![
            Instruction::GetOrCreateVar(0),
            Instruction::Constant(0),
            Instruction::Assign,
            Instruction::GetVar(0),
            Instruction::Constant(1),
            Instruction::Less,
            Instruction::JumpIf(9),
            Instruction::Constant(2),
            Instruction::Print(true),
            Instruction::GetVar(0),
            Instruction::Print(true),
            Instruction::Halt,
        ]
    );
}

#[test]
fn backward_and_forward_jumps_are_patched_alike() {
    assert_eq!(
        code("i = 0\nloop:\nif i >= 3 goto done\nprintln i\ni = i + 1\ngoto loop\ndone:\nhalt"),
        vec![
            Instruction::GetOrCreateVar(0),
            Instruction::Constant(0),
            Instruction::Assign,
            Instruction::GetVar(0),
            Instruction::Constant(1),
            Instruction::Less,
            Instruction::Not,
            Instruction::JumpIf(16),
            Instruction::GetVar(0),
            Instruction::Print(true),
            Instruction::GetOrCreateVar(0),
            Instruction::GetVar(0),
            Instruction::Constant(2),
            Instruction::Add,
            Instruction::Assign,
            Instruction::Goto(3),
            Instruction::Halt,
        ]
    );
}

#[test]
fn several_jumps_to_one_label_are_all_patched() {
    assert_eq!(
        code("goto end\ngoto end\nif true goto end\nend:\nhalt"),
        vec![
            Instruction::Goto(4),
            Instruction::Goto(4),
            Instruction::True,
            Instruction::JumpIf(4),
            Instruction::Halt,
        ]
    );
}

#[test]
fn every_jump_of_a_compiled_program_lands_in_the_code() {
    let sources = [
        "goto a\na:\nprint 1",
        "a:\ngoto a",
        "if true goto b\nprint 1\nb:\nprint 2\nifFalse false goto b",
        "x = 1\nl1:\nx = x + 1\nif x < 5 goto l1\ngoto l2\nprint x\nl2:",
    ];
    for source in sources {
        let code = code(source);
        assert_eq!(code.last(), Some(&Instruction::Halt));
        for instruction in &code {
            match instruction {
                Instruction::Goto(target) | Instruction::JumpIf(target) => {
                    assert!((*target as usize) < code.len(), "{}", source)
                }
                _ => {}
            }
        }
    }
}

#[test]
fn unused_label_behind_the_final_halt_leaves_every_jump_inside() {
    let code = code("goto a\na:\nhalt\nb:");
    assert_eq!(code, vec![Instruction::Goto(1), Instruction::Halt]);
}

#[test]
fn label_behind_the_final_halt_marks_the_end_of_the_code() {
    assert_eq!(code("goto L\nhalt\nL:"), vec![Instruction::Goto(2), Instruction::Halt]);
}

#[test]
fn if_false_compiles_as_if_not() {
    assert_eq!(code("ifFalse x goto L\nL:"), code("if !x goto L\nL:"));
    assert_eq!(code("ifFalse true goto L\nL:"), code("if !true goto L\nL:"));
    assert_eq!(
        code("ifFalse x goto L\nL:"),
        vec![Instruction::GetVar(0), Instruction::Not, Instruction::JumpIf(3), Instruction::Halt]
    );
    let (negated, _, _) = compile("x = 1\nifFalse x goto L\nL:");
    let (inverted, _, _) = compile("x = 1\nif !x goto L\nL:");
    assert_eq!(negated.lines, inverted.lines);
    assert_eq!(negated.names, inverted.names);
}

/// What `instruction` adds to the height of the stack, a variable's own
/// slot aside.
fn effect(instruction: &Instruction) -> i64 {
    match instruction {
        Instruction::Constant(_)
        | Instruction::True
        | Instruction::False
        | Instruction::GetVar(_)
        | Instruction::GetOrCreateVar(_) => 1,
        Instruction::Negate | Instruction::Not | Instruction::Goto(_) => 0,
        Instruction::Halt | Instruction::Return => 0,
        Instruction::Assign => -2,
        Instruction::Call(_) => panic!("no call is compiled"),
        _ => -1,
    }
}

#[test]
fn every_statement_leaves_the_stack_as_high_as_it_found_it() {
    let sources = [
        "print 1 + 2",
        "x = 10\ny = x * 2\nprintln y",
        "x = 1\nprint -x\nprint !true\nx = x << 2\nprint x != 4\nprint x >= 4",
        "a = 'c'\nb = a == 'c'\nprintln b\nhalt",
    ];
    for source in sources {
        let mut height = 0;
        for instruction in code(source) {
            height += effect(&instruction);
            assert!(height >= 0, "{}", source);
            match instruction {
                Instruction::Assign | Instruction::Print(_) | Instruction::Halt => {
                    assert_eq!(height, 0, "{}", source)
                }
                _ => {}
            }
        }
        assert_eq!(height, 0, "{}", source);
    }
}

#[test]
fn literal_has_the_type_of_its_suffix() {
    assert!(matches!(parse_literal("12u64"), Ok(Literal::U64(12))));
    assert!(matches!(parse_literal("12i64"), Ok(Literal::I64(12))));
    assert!(matches!(parse_literal("12f64"), Ok(Literal::F64("12"))));
    assert!(matches!(parse_literal("1.5f64"), Ok(Literal::F64("1.5"))));
    assert!(matches!(parse_literal("1.5"), Ok(Literal::F64("1.5"))));
    assert!(matches!(parse_literal("3."), Ok(Literal::F64("3."))));
    assert!(matches!(parse_literal("12"), Ok(Literal::I64(12))));
    assert!(matches!(parse_literal("0"), Ok(Literal::I64(0))));
    assert!(matches!(parse_literal("007"), Ok(Literal::I64(7))));
}

#[test]
fn literal_goes_up_to_the_greatest_value_of_its_type() {
    assert!(matches!(parse_literal("18446744073709551615u64"), Ok(Literal::U64(u64::MAX))));
    assert!(matches!(parse_literal("9223372036854775807"), Ok(Literal::I64(i64::MAX))));
    assert!(matches!(parse_literal("9223372036854775807i64"), Ok(Literal::I64(i64::MAX))));
    assert!(matches!(
        parse_literal("000018446744073709551615u64"),
        Ok(Literal::U64(u64::MAX))
    ));
    assert_eq!(
        parse_literal("18446744073709551616u64").err(),
        Some("It was not possible to parse number to type u64".to_string())
    );
    assert_eq!(
        parse_literal("9223372036854775808").err(),
        Some("It was not possible to parse number to type i64".to_string())
    );
    assert_eq!(
        parse_literal("9223372036854775808i64").err(),
        Some("It was not possible to parse number to type i64".to_string())
    );
    assert_eq!(
        parse_literal("99999999999999999999999999999999999999999999").err(),
        Some("It was not possible to parse number to type i64".to_string())
    );
}

#[test]
fn literal_refuses_wrong_suffixes() {
    assert_eq!(
        parse_literal("1.5u64").err(),
        Some("Cannot set u64 suffix to a float number".to_string())
    );
    assert_eq!(
        parse_literal("1.5i64").err(),
        Some("Cannot set i64 suffix to a float number".to_string())
    );
    assert_eq!(parse_literal("1abc").err(), Some("Invalid suffix 'abc'".to_string()));
    assert_eq!(parse_literal("1u32").err(), Some("Invalid suffix 'u32'".to_string()));
    assert_eq!(parse_literal("1.5x9").err(), Some("Invalid suffix 'x9'".to_string()));
    assert_eq!(parse_literal("7U64").err(), Some("Invalid suffix 'U64'".to_string()));
}

#[test]
fn error_at_names_the_place() {
    let token = Token { kind: TokenKind::Identifier, lexeme: "x", line: 12 };
    assert_eq!(error_at(token, "wrong"), "[line 12] Error at 'x': wrong");
    let end = Token { kind: TokenKind::Eof, lexeme: "", line: 3 };
    assert_eq!(error_at(end, "early"), "[line 3] Error at end: early");
    let bad = Token { kind: TokenKind::Error, lexeme: "Unexpected character", line: 1 };
    assert_eq!(error_at(bad, "Unexpected character"), "[line 1] Error: Unexpected character");
    assert_eq!(script_line(7), "[line 7] in script");
    assert_eq!(script_line(0), "[line 0] in script");
}

#[test]
fn reports_statements_that_start_wrong() {
    assert_eq!(
        errors("= 5"),
        vec!["[line 1] Error at '=': Assignments must have a variable on the left side"]
    );
    assert_eq!(
        errors("scan"),
        vec!["[line 1] Error at 'scan': Return value of scan must be assigned to a variable"]
    );
    assert_eq!(errors("("), vec!["[line 1] Error at '(': Invalid statement with token LeftParen"]);
    assert_eq!(errors("5"), vec!["[line 1] Error at '5': Invalid statement with token Number"]);
    assert_eq!(
        errors("return"),
        vec!["[line 1] Error at 'return': Invalid statement with token Return"]
    );
}

#[test]
fn reports_what_follows_a_statement() {
    assert_eq!(
        errors("halt halt"),
        vec!["[line 1] Error at 'halt': There must be at most one statement per line"]
    );
    assert_eq!(
        errors("print 1 + 2 + 3"),
        vec!["[line 1] Error at '+': Three-address code programs support at most binary expressions"]
    );
    assert_eq!(
        errors("print !x !"),
        vec!["[line 1] Error at '!': Three-address code programs support at most binary expressions"]
    );
    assert_eq!(
        errors("x = 1 2"),
        vec!["[line 1] Error at '2': There must be at most one statement per line"]
    );
}

#[test]
fn reports_broken_assignments() {
    assert_eq!(
        errors("x 5"),
        vec!["[line 1] Error at '5': Assignment statement expected, but no '=' was found"]
    );
    assert_eq!(
        errors("*5 = 1"),
        vec!["[line 1] Error at '5': A variable is required to be dereferenced"]
    );
    assert_eq!(
        errors("*x[] = 1"),
        vec![
            "[line 1] Error at '[': Dereferenced variables can not be accessed via array indexes in the same statement"
        ]
    );
    assert_eq!(
        errors("x[1] = 1"),
        vec!["[line 1] Error at '1': Missing ']': Array accesses must be enclosed by brackets"]
    );
}

#[test]
fn reports_broken_jumps() {
    assert_eq!(
        errors("goto 5"),
        vec![
            "[line 1] Error at '5': Missing label for 'goto' statement",
            "[line 1] Error at end: Missing label 'goto', first used in line 1",
        ]
    );
    assert_eq!(
        errors("L:\nif x 5"),
        vec![
            "[line 2] Error at '5': Missing 'goto' keyword after if statement",
            "[line 2] Error at end: Missing label 'x', first used in line 2",
        ]
    );
    assert_eq!(
        errors("ifFalse x goto 5\nx:"),
        vec![
            "[line 1] Error at '5': Missing label after ifFalse statement",
            "[line 2] Error at end: Missing label 'goto', first used in line 1",
        ]
    );
    assert_eq!(
        errors("ifFalse x\ngoto:"),
        vec![
            "[line 1] Error at '\n': Missing 'goto' keyword after ifFalse statement",
            "[line 2] Error at ':': Missing label for 'goto' statement",
            "[line 2] Error at end: Missing label 'x', first used in line 1",
            "[line 2] Error at end: Missing label 'goto', first used in line 2",
        ]
    );
}

#[test]
fn reports_broken_operands() {
    assert_eq!(
        errors("print \"s\""),
        vec!["[line 1] Error at '\"s\"': String literals are only allowed in the data section"]
    );
    assert_eq!(
        errors("print )"),
        vec!["[line 1] Error at ')': Invalid operand, expected literal value or variable name"]
    );
    assert_eq!(
        errors("print"),
        vec!["[line 1] Error at end: Invalid operand, expected literal value or variable name"]
    );
    assert_eq!(
        errors("print 1.5u64"),
        vec!["[line 1] Error at '1.5u64': Cannot set u64 suffix to a float number"]
    );
    assert_eq!(errors("print 1abc"), vec!["[line 1] Error at '1abc': Invalid suffix 'abc'"]);
    assert_eq!(
        errors("x = 99999999999999999999"),
        vec![
            "[line 1] Error at '99999999999999999999': It was not possible to parse number to type i64"
        ]
    );
}

#[test]
fn reports_expressions_that_are_not_supported() {
    assert_eq!(
        errors("print *x"),
        vec!["[line 1] Error at '*': Dereference expressions are not supported yet"]
    );
    assert_eq!(
        errors("print &x"),
        vec!["[line 1] Error at '&': Reference expressions are not supported yet"]
    );
    assert_eq!(
        errors("print x & y"),
        vec!["[line 1] Error at '&': Three-address code programs support at most binary expressions"]
    );
    assert_eq!(
        errors("x = call f"),
        vec!["[line 1] Error at 'call': Call expressions are not supported yet"]
    );
    assert_eq!(
        errors("x = scan"),
        vec!["[line 1] Error at 'scan': Scan expressions are not supported yet"]
    );
}

#[test]
fn reports_the_errors_of_the_scanner() {
    assert_eq!(errors("x = @"), vec![
        "[line 1] Error: Unexpected character",
    ]);
    assert_eq!(errors("print 1 ~ 2"), vec!["[line 1] Error: Unexpected character"]);
    assert_eq!(errors("print 'ab'"), vec![
        "[line 1] Error: Character literal may only contain one character",
    ]);
    assert_eq!(errors("print \"abc"), vec!["[line 1] Error: Unterminated string"]);
}

#[test]
fn reports_labels_declared_twice() {
    assert_eq!(
        errors("L:\nprint 1\nL:"),
        vec!["[line 3] Error at 'L': Redefinition of labels is not allowed"]
    );
}

#[test]
fn reports_every_missing_label_once() {
    assert_eq!(
        errors("goto a\nif true goto b\ngoto a\nc:\ngoto c"),
        vec![
            "[line 5] Error at end: Missing label 'a', first used in line 1",
            "[line 5] Error at end: Missing label 'b', first used in line 2",
        ]
    );
}

#[test]
fn reports_one_error_for_each_statement() {
    let (chunk, reports, result) = compile("print )\nprint 1\n= 2 3 4\nprint 2 +\nhalt");
    assert_eq!(result, Err(TACError::CompileError));
    assert_eq!(
        reports,
        vec![
            "[line 1] Error at ')': Invalid operand, expected literal value or variable name",
            "[line 3] Error at '=': Assignments must have a variable on the left side",
            "[line 4] Error at '\n': Invalid operand, expected literal value or variable name",
        ]
    );
    assert_eq!(chunk.code.last(), Some(&Instruction::Halt));
}

#[test]
fn constant_pool_overflow_is_a_compile_error() {
    let mut source = String::new();
    for _ in 0..65535 {
        source.push_str("x = 1\n");
    }
    assert_eq!(compile(&source).2, Ok(()));
    source.push_str("x = 1\n");
    assert_eq!(
        errors(&source),
        vec!["[line 65536] Error at '1': Could not add constant, reached limit of u16 max size"]
    );
}

#[test]
fn name_pool_overflow_is_a_compile_error() {
    let mut source = String::new();
    for index in 0..65535 {
        source.push_str(&format!("v{} = true\n", index));
    }
    assert_eq!(compile(&source).2, Ok(()));
    source.push_str("w = true\n");
    assert_eq!(
        errors(&source),
        vec!["[line 65536] Error at 'w': The program uses too many variables (65535+)"]
    );
}
