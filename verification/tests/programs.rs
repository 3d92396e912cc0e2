use tac::error::{script_line, TACError};
use tac::value::{FloatOp, Value};
use tac::vm::{Action, VirtualMachine};

/// What a run left behind: what it wrote, what it reported, how it ended.
struct Run {
    stdout: String,
    stderr: Vec<String>,
    result: Result<(), TACError>,
}

fn float_result(op: FloatOp, lhs: u64, rhs: u64) -> u64 {
    let a = f64::from_bits(lhs);
    let b = f64::from_bits(rhs);
    let c = match op {
        FloatOp::Add => a + b,
        FloatOp::Subtract => a - b,
        FloatOp::Multiply => a * b,
        FloatOp::Divide => a / b,
        FloatOp::Modulo => a % b,
    };
    c.to_bits()
}

fn show(value: &Value) -> String {
    match value {
        Value::F64(bits) => format!("{}", f64::from_bits(*bits)),
        other => other.to_text().unwrap(),
    }
}

fn run(source: &str) -> Run {
    let mut vm = VirtualMachine::new();
    let mut stdout = String::new();
    if let Err(error) = vm.interpret(source) {
        return Run { stdout, stderr: vm.reports().clone(), result: Err(error) };
    }
    let mut steps = 0;
    loop {
        steps += 1;
        assert!(steps < 100_000, "the program does not end");
        match vm.step() {
            Action::Continue => {}
            Action::Halt => return Run { stdout, stderr: vec![], result: Ok(()) },
            Action::Parse { numeral } => vm.define_float(numeral.parse::<f64>().unwrap().to_bits()),
            Action::Print { value, newline } => {
                stdout.push_str(&show(&value));
                if newline {
                    stdout.push('\n');
                }
            }
            Action::Float { op, lhs, rhs } => vm.push_float(float_result(op, lhs, rhs)),
            Action::Fault { message, line } => {
                return Run {
                    stdout,
                    stderr: vec![message, script_line(line)],
                    result: Err(TACError::RuntimeError),
                }
            }
        }
    }
}

#[test]
fn prints_a_sum() {
    let run = run("print 1 + 2");
    assert_eq!(run.result, Ok(()));
    assert_eq!(run.stdout, "3");
    assert!(run.stderr.is_empty());
}

#[test]
fn assigns_and_multiplies() {
    let run = run("x = 10\ny = x * 2\nprintln y");
    assert_eq!(run.result, Ok(()));
    assert_eq!(run.stdout, "20\n");
}

#[test]
fn jumps_over_a_statement() {
    let run = run("x = 5\nif x < 10 goto L1\nprintln 99\nL1:\nprintln x");
    assert_eq!(run.result, Ok(()));
    assert_eq!(run.stdout, "5\n");
}

#[test]
fn counts_in_a_loop() {
    let run = run("i = 0\nloop:\nif i >= 3 goto done\nprintln i\ni = i + 1\ngoto loop\ndone:\nhalt");
    assert_eq!(run.result, Ok(()));
    assert_eq!(run.stdout, "0\n1\n2\n");
}

#[test]
fn prints_a_float() {
    let run = run("println 3.14f64");
    assert_eq!(run.result, Ok(()));
    assert_eq!(run.stdout, "3.14\n");
}

#[test]
fn prints_a_character() {
    let run = run("println 'a'");
    assert_eq!(run.result, Ok(()));
    assert_eq!(run.stdout, "a\n");
}

#[test]
fn reports_division_by_zero() {
    let run = run("println 10u64 / 0u64");
    assert_eq!(run.result, Err(TACError::RuntimeError));
    assert_eq!(run.stderr, vec!["Division by 0".to_string(), "[line 1] in script".to_string()]);
    assert_eq!(run.stdout, "");
}

#[test]
fn reports_mixed_operands() {
    let run = run("println 1 + true");
    assert_eq!(run.result, Err(TACError::RuntimeError));
    assert_eq!(
        run.stderr[0],
        "Operator '+' not supported between values of type 'i64' and 'bool'"
    );
}
