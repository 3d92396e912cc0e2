use tac::chunk::{Chunk, Instruction};
use tac::error::TACError;
use tac::value::{FloatOp, Value};
use tac::vm::{Action, VirtualMachine};

/// A machine that is ready to run `code`, every instruction on line 1,
/// with `constants` in its pool.
fn machine(code: &[Instruction], constants: &[Value]) -> VirtualMachine {
    let mut chunk = Chunk::new();
    for constant in constants {
        chunk.add_constant(*constant).unwrap();
    }
    for name in ["a", "b", "c"] {
        chunk.add_name(name).unwrap();
    }
    for instruction in code {
        chunk.write(*instruction, 1);
    }
    let mut vm = VirtualMachine::new();
    vm.load(chunk);
    vm
}

/// Steps until the machine asks for something else than to go on.
fn run(vm: &mut VirtualMachine) -> Action {
    for _ in 0..10_000 {
        match vm.step() {
            Action::Continue => {}
            action => return action,
        }
    }
    panic!("the program does not end");
}

fn fault(vm: &mut VirtualMachine) -> (String, usize) {
    match run(vm) {
        Action::Fault { message, line } => (message, line),
        action => panic!("no fault: {:?}", action),
    }
}

fn shown(stack: &Vec<Value>) -> Vec<String> {
    stack.iter().map(|value| format!("{:?}", value)).collect()
}

#[test]
fn new_machine_has_ended() {
    let mut vm = VirtualMachine::new();
    assert_eq!(vm.depth(), 0);
    assert_eq!(vm.ip(), 0);
    assert!(vm.stack().is_empty());
    assert!(vm.reports().is_empty());
    assert!(matches!(vm.step(), Action::Halt));
    assert!(matches!(vm.step(), Action::Halt));
}

#[test]
fn interpret_starts_over() {
    let mut vm = VirtualMachine::new();
    assert_eq!(vm.interpret("x = 1\nprint x"), Ok(()));
    assert!(matches!(run(&mut vm), Action::Print { value: Value::I64(1), newline: false }));
    assert_eq!(vm.stack().len(), 1);
    assert_eq!(vm.interpret("print 2"), Ok(()));
    assert_eq!(vm.ip(), 0);
    assert_eq!(vm.depth(), 1);
    assert!(vm.stack().is_empty());
    assert_eq!(vm.chunk().code.len(), 3);
    assert!(matches!(run(&mut vm), Action::Print { value: Value::I64(2), newline: false }));
    assert!(matches!(run(&mut vm), Action::Halt));
}

#[test]
fn interpret_fails_where_the_source_does_not_compile() {
    let mut vm = VirtualMachine::new();
    assert_eq!(vm.interpret("print )\nx 1"), Err(TACError::CompileError));
    assert_eq!(
        vm.reports().clone(),
        vec![
            "[line 1] Error at ')': Invalid operand, expected literal value or variable name",
            "[line 2] Error at '1': Assignment statement expected, but no '=' was found",
        ]
    );
    assert_eq!(vm.interpret("print 1"), Ok(()));
    assert!(vm.reports().is_empty());
}

#[test]
fn halt_ends_the_program() {
    let mut vm = machine(&[Instruction::Halt, Instruction::True], &[]);
    assert!(matches!(vm.step(), Action::Halt));
    assert_eq!(vm.ip(), 1);
    assert!(vm.stack().is_empty());
}

#[test]
fn running_off_the_code_is_an_error() {
    let mut vm = machine(&[Instruction::True], &[]);
    assert!(matches!(vm.step(), Action::Continue));
    assert_eq!(
        fault(&mut vm),
        ("Instruction pointer reached end of code without a finishing statement".to_string(), 1)
    );
    let mut empty = machine(&[], &[]);
    assert_eq!(
        fault(&mut empty),
        ("Instruction pointer reached end of code without a finishing statement".to_string(), 0)
    );
}

#[test]
fn constants_and_booleans_are_pushed() {
    let mut vm = machine(
        &[Instruction::Constant(1), Instruction::True, Instruction::False, Instruction::Halt],
        &[Value::I64(4), Value::Char('x')],
    );
    assert!(matches!(run(&mut vm), Action::Halt));
    assert_eq!(shown(vm.stack()), vec!["Char('x')", "Bool(true)", "Bool(false)"]);
}

#[test]
fn binary_operators_take_two_and_push_one() {
    let mut vm = machine(
        &[
            Instruction::Constant(0),
            Instruction::Constant(1),
            Instruction::Subtract,
            Instruction::Constant(1),
            Instruction::Less,
            Instruction::Halt,
        ],
        &[Value::I64(10), Value::I64(4)],
    );
    assert!(matches!(run(&mut vm), Action::Halt));
    assert_eq!(shown(vm.stack()), vec!["Bool(false)"]);
}

#[test]
fn every_operator_instruction_applies_its_operator() {
    let cases = [
        (Instruction::Add, "I64(15)"),
        (Instruction::Subtract, "I64(9)"),
        (Instruction::Multiply, "I64(36)"),
        (Instruction::Divide, "I64(4)"),
        (Instruction::Modulo, "I64(0)"),
        (Instruction::ShiftLeft, "I64(96)"),
        (Instruction::ShiftRight, "I64(1)"),
        (Instruction::Equal, "Bool(false)"),
        (Instruction::Greater, "Bool(true)"),
        (Instruction::Less, "Bool(false)"),
    ];
    for (instruction, want) in cases {
        let mut vm = machine(
            &[Instruction::Constant(0), Instruction::Constant(1), instruction, Instruction::Halt],
            &[Value::I64(12), Value::I64(3)],
        );
        assert!(matches!(run(&mut vm), Action::Halt));
        assert_eq!(shown(vm.stack()), vec![want], "{:?}", instruction);
    }
}

#[test]
fn binary_operators_need_two_values() {
    let names = [
        (Instruction::Add, "+"),
        (Instruction::Subtract, "-"),
        (Instruction::Multiply, "*"),
        (Instruction::Divide, "/"),
        (Instruction::Modulo, "%"),
        (Instruction::ShiftLeft, "<<"),
        (Instruction::ShiftRight, ">>"),
        (Instruction::Equal, "eq"),
        (Instruction::Greater, "gt"),
        (Instruction::Less, "lt"),
    ];
    for (instruction, name) in names {
        let message = format!(
            "Can not apply operator '{}' because there are not enough values in the stack",
            name
        );
        let mut none = machine(&[instruction], &[]);
        assert_eq!(fault(&mut none), (message.clone(), 1));
        let mut one = machine(&[Instruction::True, instruction], &[]);
        assert_eq!(fault(&mut one), (message, 1));
        assert!(one.stack().is_empty());
    }
}

#[test]
fn operator_errors_are_run_time_errors() {
    let mut vm = machine(
        &[Instruction::Constant(0), Instruction::True, Instruction::Add],
        &[Value::I64(1)],
    );
    assert_eq!(
        fault(&mut vm),
        ("Operator '+' not supported between values of type 'i64' and 'bool'".to_string(), 1)
    );
    assert!(vm.stack().is_empty());
}

#[test]
fn division_by_every_zero_is_a_run_time_error() {
    let zeros =
        [Value::F64(0.0f64.to_bits()), Value::F64((-0.0f64).to_bits()), Value::I64(0), Value::U64(0)];
    for zero in zeros {
        for instruction in [Instruction::Divide, Instruction::Modulo] {
            let mut vm = machine(
                &[Instruction::Constant(0), Instruction::Constant(1), instruction, Instruction::Halt],
                &[Value::U64(10), zero],
            );
            assert_eq!(fault(&mut vm), ("Division by 0".to_string(), 1));
        }
    }
}

#[test]
fn float_arithmetic_is_asked_of_the_host() {
    let a = 1.5f64.to_bits();
    let b = 0.25f64.to_bits();
    let mut vm = machine(
        &[Instruction::Constant(0), Instruction::Constant(1), Instruction::Divide, Instruction::Halt],
        &[Value::F64(a), Value::F64(b)],
    );
    match run(&mut vm) {
        Action::Float { op: FloatOp::Divide, lhs, rhs } => {
            assert_eq!((lhs, rhs), (a, b));
        }
        action => panic!("{:?}", action),
    }
    assert!(vm.stack().is_empty());
    vm.push_float(6.0f64.to_bits());
    assert!(matches!(run(&mut vm), Action::Halt));
    assert_eq!(shown(vm.stack()), vec![format!("F64({})", 6.0f64.to_bits())]);
}

#[test]
fn float_literals_are_asked_of_the_host_first() {
    let mut vm = VirtualMachine::new();
    assert_eq!(vm.interpret("x = 1.5\nprint 2.f64 / x"), Ok(()));
    assert!(matches!(vm.step(), Action::Parse { numeral } if numeral == "1.5"));
    assert!(matches!(vm.step(), Action::Parse { numeral } if numeral == "1.5"));
    vm.define_float(1.5f64.to_bits());
    assert!(matches!(vm.step(), Action::Parse { numeral } if numeral == "2."));
    vm.define_float(2.0f64.to_bits());
    vm.define_float(9.0f64.to_bits());
    assert_eq!(vm.ip(), 0);
    match run(&mut vm) {
        Action::Float { op: FloatOp::Divide, lhs, rhs } => {
            assert_eq!(f64::from_bits(lhs), 2.0);
            assert_eq!(f64::from_bits(rhs), 1.5);
        }
        action => panic!("{:?}", action),
    }
}

#[test]
fn unary_operators_change_the_top_in_place() {
    let mut vm = machine(
        &[
            Instruction::Constant(0),
            Instruction::Negate,
            Instruction::True,
            Instruction::Not,
            Instruction::Halt,
        ],
        &[Value::I64(5)],
    );
    assert!(matches!(run(&mut vm), Action::Halt));
    assert_eq!(shown(vm.stack()), vec!["I64(-5)", "Bool(false)"]);
}

#[test]
fn unary_operators_need_a_value_of_their_type() {
    let empty = "Can not apply unary operator '-' because there is not a value in the stack";
    let mut none = machine(&[Instruction::Negate], &[]);
    assert_eq!(fault(&mut none), (empty.to_string(), 1));
    let mut none = machine(&[Instruction::Not], &[]);
    assert_eq!(fault(&mut none), (empty.to_string(), 1));
    let mut vm = machine(&[Instruction::True, Instruction::Negate], &[]);
    assert_eq!(
        fault(&mut vm),
        ("It is not possible to arithmetically negate a boolean".to_string(), 1)
    );
    assert_eq!(shown(vm.stack()), vec!["Bool(true)"]);
    let mut vm = machine(&[Instruction::Constant(0), Instruction::Not], &[Value::U64(1)]);
    assert_eq!(
        fault(&mut vm),
        ("Operator '!' not supported for value of type u64".to_string(), 1)
    );
    assert_eq!(shown(vm.stack()), vec!["U64(1)"]);
}

#[test]
fn print_hands_the_top_to_the_host() {
    let mut vm = machine(
        &[Instruction::True, Instruction::Print(true), Instruction::Print(false)],
        &[],
    );
    assert!(matches!(run(&mut vm), Action::Print { value: Value::Bool(true), newline: true }));
    assert!(vm.stack().is_empty());
    assert_eq!(fault(&mut vm), ("No value in the stack to print".to_string(), 1));
}

#[test]
fn pop_takes_the_top() {
    let mut vm = machine(&[Instruction::True, Instruction::Pop, Instruction::Pop], &[]);
    assert!(matches!(vm.step(), Action::Continue));
    assert!(matches!(vm.step(), Action::Continue));
    assert!(vm.stack().is_empty());
    assert_eq!(fault(&mut vm), ("No value in the stack to pop".to_string(), 1));
}

#[test]
fn goto_sets_the_next_instruction() {
    let mut vm = machine(&[Instruction::Goto(2), Instruction::True, Instruction::Halt], &[]);
    assert!(matches!(vm.step(), Action::Continue));
    assert_eq!(vm.ip(), 2);
    assert!(matches!(vm.step(), Action::Halt));
    assert!(vm.stack().is_empty());
}

#[test]
fn jump_if_jumps_on_true_only() {
    let mut vm = machine(&[Instruction::True, Instruction::JumpIf(7)], &[]);
    assert!(matches!(run(&mut vm), Action::Fault { .. }));
    assert_eq!(vm.ip(), 7);
    assert!(vm.stack().is_empty());
    let mut vm = machine(&[Instruction::False, Instruction::JumpIf(7), Instruction::Halt], &[]);
    assert!(matches!(run(&mut vm), Action::Halt));
    assert_eq!(vm.ip(), 3);
    assert!(vm.stack().is_empty());
}

#[test]
fn jump_if_needs_a_boolean() {
    let mut none = machine(&[Instruction::JumpIf(0)], &[]);
    assert_eq!(fault(&mut none), ("No value in the stack to check condition".to_string(), 1));
    let mut vm = machine(&[Instruction::Constant(0), Instruction::JumpIf(0)], &[Value::I64(1)]);
    assert_eq!(
        fault(&mut vm),
        ("Invalid type 'i64' for condition, 'bool' required.".to_string(), 1)
    );
    assert!(vm.stack().is_empty());
}

#[test]
fn not_then_jump_if_jumps_on_false() {
    for condition in [true, false] {
        let first = if condition { Instruction::True } else { Instruction::False };
        let mut vm =
            machine(&[first, Instruction::Not, Instruction::JumpIf(9), Instruction::Halt], &[]);
        assert!(matches!(vm.step(), Action::Continue));
        assert!(matches!(vm.step(), Action::Continue));
        assert!(matches!(vm.step(), Action::Continue));
        assert_eq!(vm.ip(), if condition { 3 } else { 9 });
        assert!(vm.stack().is_empty());
    }
}

#[test]
fn variables_live_in_slots_of_the_stack() {
    let mut vm = machine(
        &[
            Instruction::GetOrCreateVar(1),
            Instruction::Constant(0),
            Instruction::Assign,
            Instruction::GetOrCreateVar(2),
            Instruction::GetVar(1),
            Instruction::Assign,
            Instruction::GetOrCreateVar(1),
            Instruction::Halt,
        ],
        &[Value::I64(42)],
    );
    assert!(matches!(vm.step(), Action::Continue));
    assert_eq!(shown(vm.stack()), vec!["U64(0)", "Addr(0)"]);
    assert!(matches!(vm.step(), Action::Continue));
    assert!(matches!(vm.step(), Action::Continue));
    assert_eq!(shown(vm.stack()), vec!["I64(42)"]);
    assert!(matches!(run(&mut vm), Action::Halt));
    assert_eq!(shown(vm.stack()), vec!["I64(42)", "I64(42)", "Addr(0)"]);
}

#[test]
fn unknown_variable_is_a_run_time_error() {
    let mut vm = machine(&[Instruction::GetVar(2)], &[]);
    assert_eq!(fault(&mut vm), ("Variable c is undefined".to_string(), 1));
}

#[test]
fn variable_over_the_stack_is_a_run_time_error() {
    let mut vm = machine(
        &[Instruction::GetOrCreateVar(0), Instruction::Pop, Instruction::Pop, Instruction::GetVar(0)],
        &[],
    );
    assert_eq!(
        fault(&mut vm),
        ("Variable a has invalid address on symbol table".to_string(), 1)
    );
}

#[test]
fn assign_needs_a_value_and_an_address() {
    let mut none = machine(&[Instruction::Assign], &[]);
    assert_eq!(fault(&mut none), ("No value in the stack to assign".to_string(), 1));
    let mut one = machine(&[Instruction::True, Instruction::Assign], &[]);
    assert_eq!(fault(&mut one), ("No address in the stack to assign to".to_string(), 1));
    let mut wrong = machine(&[Instruction::True, Instruction::True, Instruction::Assign], &[]);
    assert_eq!(fault(&mut wrong), ("Assignment target in stack is not valid".to_string(), 1));
    let mut far = machine(
        &[Instruction::Constant(0), Instruction::True, Instruction::Assign],
        &[Value::Addr(0)],
    );
    assert_eq!(
        fault(&mut far),
        ("Assignment target points to invalid stack address".to_string(), 1)
    );
}

#[test]
fn return_from_the_outermost_frame_ends_the_program() {
    let mut vm = machine(&[Instruction::True, Instruction::Return, Instruction::False], &[]);
    assert!(matches!(run(&mut vm), Action::Halt));
    assert_eq!(vm.depth(), 0);
    assert_eq!(shown(vm.stack()), vec!["Bool(true)"]);
    assert!(matches!(vm.step(), Action::Halt));
    assert_eq!(vm.ip(), 2);
}

#[test]
fn call_enters_a_frame_with_its_arguments() {
    let mut vm = machine(
        &[
            Instruction::True,
            Instruction::Constant(0),
            Instruction::Constant(1),
            Instruction::Constant(2),
            Instruction::Call(6),
            Instruction::Halt,
            Instruction::Return,
        ],
        &[Value::I64(10), Value::I64(20), Value::U64(2)],
    );
    for _ in 0..5 {
        assert!(matches!(vm.step(), Action::Continue));
    }
    assert_eq!(vm.depth(), 2);
    assert_eq!(vm.ip(), 6);
    assert_eq!(shown(vm.stack()), vec!["Bool(true)", "U64(2)", "I64(20)", "I64(10)"]);
    assert_eq!(vm.chunk().names[3..], ["args".to_string(), "argc".to_string()]);
    assert!(matches!(vm.step(), Action::Continue));
    assert_eq!(vm.depth(), 1);
    assert_eq!(vm.ip(), 5);
    assert_eq!(shown(vm.stack()), vec!["Bool(true)"]);
    assert!(matches!(vm.step(), Action::Halt));
}

#[test]
fn callee_reads_its_arguments_by_name() {
    let mut vm = machine(
        &[
            Instruction::Constant(0),
            Instruction::Constant(1),
            Instruction::Call(3),
            Instruction::GetVar(3),
            Instruction::GetVar(4),
            Instruction::GetVar(0),
        ],
        &[Value::Char('p'), Value::U64(1)],
    );
    for _ in 0..5 {
        assert!(matches!(vm.step(), Action::Continue));
    }
    assert_eq!(shown(vm.stack()), vec!["U64(1)", "Char('p')", "Char('p')", "U64(1)"]);
    assert_eq!(fault(&mut vm), ("Variable a is undefined".to_string(), 1));
}

#[test]
fn call_without_arguments_knows_no_args() {
    let mut vm = machine(
        &[Instruction::Constant(0), Instruction::Call(2), Instruction::GetVar(4), Instruction::GetVar(3)],
        &[Value::U64(0)],
    );
    for _ in 0..3 {
        assert!(matches!(vm.step(), Action::Continue));
    }
    assert_eq!(shown(vm.stack()), vec!["U64(0)", "U64(0)"]);
    assert_eq!(fault(&mut vm), ("Variable args is undefined".to_string(), 1));
}

#[test]
fn call_needs_its_count_and_its_arguments() {
    let mut none = machine(&[Instruction::Call(0)], &[]);
    assert_eq!(
        fault(&mut none),
        ("No value in the stack to define how many parameters to call function".to_string(), 1)
    );
    let mut wrong = machine(&[Instruction::Constant(0), Instruction::Call(0)], &[Value::I64(1)]);
    assert_eq!(
        fault(&mut wrong),
        (
            "Parameter count must be defined by a variable of type u64 but found type i64"
                .to_string(),
            1
        )
    );
    let mut few = machine(
        &[Instruction::True, Instruction::True, Instruction::Constant(0), Instruction::Call(0)],
        &[Value::U64(3)],
    );
    assert_eq!(
        fault(&mut few),
        ("Method called with 3 parameters but 2 were found in the stack".to_string(), 1)
    );
    assert!(few.stack().is_empty());
    assert_eq!(few.depth(), 1);
}

#[test]
fn run_time_errors_name_the_line_of_the_next_instruction() {
    let mut vm = VirtualMachine::new();
    assert_eq!(vm.interpret("x = 1\n\nprint y\nprint x"), Ok(()));
    assert_eq!(fault(&mut vm), ("Variable y is undefined".to_string(), 3));
    assert_eq!(vm.interpret("x = 1\n\nprint x + true\n\n\nprint x"), Ok(()));
    assert_eq!(
        fault(&mut vm),
        ("Operator '+' not supported between values of type 'i64' and 'bool'".to_string(), 3)
    );
    assert_eq!(vm.interpret("print 1 / 0\nprint 2"), Ok(()));
    assert_eq!(fault(&mut vm), ("Division by 0".to_string(), 1));
    assert_eq!(vm.interpret("x = 0\nif x goto L\nL:"), Ok(()));
    assert_eq!(
        fault(&mut vm),
        ("Invalid type 'i64' for condition, 'bool' required.".to_string(), 3)
    );
}

#[test]
fn a_new_variable_starts_as_unsigned_zero() {
    let mut vm = VirtualMachine::new();
    assert_eq!(vm.interpret("x = x + 1u64\nprint x"), Ok(()));
    assert!(matches!(run(&mut vm), Action::Print { value: Value::U64(1), newline: false }));
    assert_eq!(vm.interpret("y = y + 1\nprint y"), Ok(()));
    assert_eq!(
        fault(&mut vm),
        ("Operator '+' not supported between values of type 'u64' and 'i64'".to_string(), 1)
    );
}
