//! What the virtual machine does, as a function on its state.
//!
//! A [`Machine`] is the virtual machine between two steps. A step takes
//! one instruction and yields the next state and an [`ActionModel`]: what
//! the host has to do before the next step.

use vstd::prelude::*;
use crate::chunk::{ChunkModel, Instruction};
use crate::text::decimal;
use crate::value::{BinaryOp, FloatOp, Outcome, Value};

verus! {

/// One activation: the slots of its variables by name index, where to
/// return to, and the height of the stack at the call.
pub struct FrameModel {
    pub st: Map<u16, usize>,
    pub ra: Option<usize>,
    pub rsp: usize,
}

/// What the host has to do after a step.
pub enum ActionModel {
    /// Nothing: the next step can follow.
    Continue,
    /// The program has ended.
    Halt,
    /// Find the float that `numeral` writes and define it.
    Parse { numeral: Seq<char> },
    /// Write `value`, and a line feed where `newline` is set.
    Print { value: Value, newline: bool },
    /// Compute `lhs op rhs` on floats and push the result.
    Float { op: FloatOp, lhs: u64, rhs: u64 },
    /// Report the run-time error `message`, met on source line `line`.
    Fault { message: Seq<char>, line: usize },
}

/// The binary operator that an instruction applies.
pub open spec fn binary_op(instruction: Instruction) -> Option<BinaryOp> {
    match instruction {
        Instruction::Add => Some(BinaryOp::Add),
        Instruction::Subtract => Some(BinaryOp::Subtract),
        Instruction::Multiply => Some(BinaryOp::Multiply),
        Instruction::Divide => Some(BinaryOp::Divide),
        Instruction::Modulo => Some(BinaryOp::Modulo),
        Instruction::ShiftLeft => Some(BinaryOp::ShiftLeft),
        Instruction::ShiftRight => Some(BinaryOp::ShiftRight),
        Instruction::Equal => Some(BinaryOp::Equal),
        Instruction::Greater => Some(BinaryOp::Greater),
        Instruction::Less => Some(BinaryOp::Less),
        _ => None,
    }
}

/// The operator as the message for a stack that is too low writes it.
pub open spec fn operator_name(op: BinaryOp) -> Seq<char> {
    match op {
        BinaryOp::Add => "+"@,
        BinaryOp::Subtract => "-"@,
        BinaryOp::Multiply => "*"@,
        BinaryOp::Divide => "/"@,
        BinaryOp::Modulo => "%"@,
        BinaryOp::ShiftLeft => "<<"@,
        BinaryOp::ShiftRight => ">>"@,
        BinaryOp::Equal => "eq"@,
        BinaryOp::Greater => "gt"@,
        BinaryOp::Less => "lt"@,
    }
}

pub open spec fn too_few_operands_text(op: BinaryOp) -> Seq<char> {
    "Can not apply operator '"@ + operator_name(op)
        + "' because there are not enough values in the stack"@
}

pub open spec fn too_few_arguments_text(wanted: u64, found: nat) -> Seq<char> {
    "Method called with "@ + decimal(wanted as nat) + " parameters but "@ + decimal(found)
        + " were found in the stack"@
}

/// The name of the variable that holds the number of arguments of a call.
pub open spec fn argc_name() -> Seq<char> {
    "argc"@
}

/// The name of the variable that marks the first argument of a call.
pub open spec fn args_name() -> Seq<char> {
    "args"@
}

/// The virtual machine between two steps.
pub struct Machine {
    pub chunk: ChunkModel,
    pub frames: Seq<FrameModel>,
    pub stack: Seq<Value>,
    /// The index of the next instruction.
    pub ip: usize,
    /// The number of float literals that were defined.
    pub resolved: nat,
}

impl Machine {
    /// The machine that holds no program.
    pub open spec fn empty() -> Machine {
        Machine {
            chunk: ChunkModel::empty(),
            frames: Seq::empty(),
            stack: Seq::empty(),
            ip: 0,
            resolved: 0,
        }
    }

    /// The machine about to run `chunk`: one frame that returns nowhere,
    /// an empty stack, the first instruction next, no float defined.
    pub open spec fn loaded(chunk: ChunkModel) -> Machine {
        Machine {
            chunk,
            frames: seq![FrameModel { st: Map::empty(), ra: None, rsp: 0 }],
            stack: Seq::empty(),
            ip: 0,
            resolved: 0,
        }
    }

    pub open spec fn well_formed(self) -> bool {
        self.chunk.well_formed() && self.resolved <= self.chunk.floats.len()
    }

    /// The source line that a run-time error is reported on: that of
    /// the instruction at `ip`, which is the one behind the instruction
    /// at work.
    pub open spec fn line(self) -> usize {
        self.chunk.line_of(self.ip as int)
    }

    pub open spec fn go(self) -> (Machine, ActionModel) {
        (self, ActionModel::Continue)
    }

    pub open spec fn fault(self, message: Seq<char>) -> (Machine, ActionModel) {
        (self, ActionModel::Fault { message, line: self.line() })
    }

    pub open spec fn push(self, value: Value) -> Machine {
        Machine { stack: self.stack.push(value), ..self }
    }

    /// The machine with `count` values taken off the stack.
    pub open spec fn drop(self, count: int) -> Machine {
        Machine { stack: self.stack.take(self.stack.len() - count), ..self }
    }

    /// The value `depth` places under the top of the stack.
    pub open spec fn peek(self, depth: int) -> Value {
        self.stack[self.stack.len() - 1 - depth]
    }

    /// The machine with the symbol table of its current frame set to `st`.
    pub open spec fn with_symbols(self, st: Map<u16, usize>) -> Machine {
        Machine {
            frames: self.frames.update(
                self.frames.len() - 1,
                FrameModel { st, ..self.frames.last() },
            ),
            ..self
        }
    }

    /// The float literal that is defined next gets the value with the
    /// bit pattern `bits`.
    pub open spec fn define_float(self, bits: u64) -> Machine {
        if self.resolved < self.chunk.floats.len() {
            Machine {
                chunk: self.chunk.set_float(self.chunk.floats[self.resolved as int].constant, bits),
                resolved: self.resolved + 1,
                ..self
            }
        } else {
            self
        }
    }

    /// `Return`: leaves the current frame. From a call the machine goes
    /// back to the caller, with the stack as high as it was at the call;
    /// from the outermost frame the program ends.
    #[verifier::opaque]
    pub open spec fn do_return(self) -> (Machine, ActionModel)
        recommends
            self.frames.len() > 0,
    {
        let frame = self.frames.last();
        match frame.ra {
            Some(ip) => (Machine {
                frames: self.frames.drop_last(),
                stack: if frame.rsp < self.stack.len() {
                    self.stack.take(frame.rsp as int)
                } else {
                    self.stack
                },
                ip,
                ..self
            }).go(),
            None => (Machine { frames: self.frames.drop_last(), ..self }, ActionModel::Halt),
        }
    }

    /// A binary operator: takes the right operand, then the left one,
    /// and pushes the result, or hands two floats to the host.
    #[verifier::opaque]
    pub open spec fn binary(self, op: BinaryOp) -> (Machine, ActionModel) {
        if self.stack.len() == 0 {
            self.fault(too_few_operands_text(op))
        } else if self.stack.len() == 1 {
            self.drop(1).fault(too_few_operands_text(op))
        } else {
            match Value::binary(op, self.peek(1), self.peek(0)) {
                Ok(Outcome::Done(value)) => self.drop(2).push(value).go(),
                Ok(Outcome::Float { op, lhs, rhs }) => (
                    self.drop(2),
                    ActionModel::Float { op, lhs, rhs },
                ),
                Err(message) => self.drop(2).fault(message),
            }
        }
    }

    /// `Negate` (`minus`) and `Not`: changes the top of the stack in
    /// place.
    #[verifier::opaque]
    pub open spec fn unary(self, minus: bool) -> (Machine, ActionModel) {
        if self.stack.len() == 0 {
            self.fault(
                "Can not apply unary operator '-' because there is not a value in the stack"@,
            )
        } else {
            let result = if minus {
                self.peek(0).negated()
            } else {
                self.peek(0).inverted()
            };
            match result {
                Ok(value) => self.drop(1).push(value).go(),
                Err(message) => self.fault(message),
            }
        }
    }

    /// `Print`: takes the top of the stack, for the host to write.
    #[verifier::opaque]
    pub open spec fn print(self, newline: bool) -> (Machine, ActionModel) {
        if self.stack.len() == 0 {
            self.fault("No value in the stack to print"@)
        } else {
            (self.drop(1), ActionModel::Print { value: self.peek(0), newline })
        }
    }

    /// `Pop`: takes the top of the stack.
    #[verifier::opaque]
    pub open spec fn pop(self) -> (Machine, ActionModel) {
        if self.stack.len() == 0 {
            self.fault("No value in the stack to pop"@)
        } else {
            self.drop(1).go()
        }
    }

    /// `JumpIf`: takes a boolean and goes to `target` where it is true.
    #[verifier::opaque]
    pub open spec fn jump_if(self, target: u16) -> (Machine, ActionModel) {
        if self.stack.len() == 0 {
            self.fault("No value in the stack to check condition"@)
        } else {
            match self.peek(0) {
                Value::Bool(true) => (Machine { ip: target as usize, ..self.drop(1) }).go(),
                Value::Bool(false) => self.drop(1).go(),
                value => self.drop(1).fault(
                    "Invalid type '"@ + value.type_info_spec() + "' for condition, 'bool' required."@,
                ),
            }
        }
    }

    /// `Assign`: takes a value and, under it, an address, and stores
    /// the value in the slot at the address.
    #[verifier::opaque]
    pub open spec fn assign(self) -> (Machine, ActionModel) {
        if self.stack.len() == 0 {
            self.fault("No value in the stack to assign"@)
        } else if self.stack.len() == 1 {
            self.drop(1).fault("No address in the stack to assign to"@)
        } else {
            let rest = self.drop(2);
            match self.peek(1) {
                Value::Addr(slot) => if slot < rest.stack.len() {
                    (Machine { stack: rest.stack.update(slot as int, self.peek(0)), ..rest }).go()
                } else {
                    rest.fault("Assignment target points to invalid stack address"@)
                },
                _ => rest.fault("Assignment target in stack is not valid"@),
            }
        }
    }

    /// `GetVar`: pushes the value in the slot of the variable.
    #[verifier::opaque]
    pub open spec fn get_var(self, name: u16) -> (Machine, ActionModel)
        recommends
            self.frames.len() > 0,
            name < self.chunk.names.len(),
    {
        let st = self.frames.last().st;
        if !st.contains_key(name) {
            self.fault("Variable "@ + self.chunk.names[name as int] + " is undefined"@)
        } else if st[name] < self.stack.len() {
            self.push(self.stack[st[name] as int]).go()
        } else {
            self.fault(
                "Variable "@ + self.chunk.names[name as int]
                    + " has invalid address on symbol table"@,
            )
        }
    }

    /// `GetOrCreateVar`: pushes the address of the slot of the variable.
    /// A variable that the frame does not know gets the next slot, which
    /// holds `U64(0)`.
    #[verifier::opaque]
    pub open spec fn get_or_create_var(self, name: u16) -> (Machine, ActionModel)
        recommends
            self.frames.len() > 0,
    {
        let st = self.frames.last().st;
        if st.contains_key(name) {
            self.push(Value::Addr(st[name])).go()
        } else {
            let slot = self.stack.len() as usize;
            self.with_symbols(st.insert(name, slot)).push(Value::U64(0)).push(
                Value::Addr(slot),
            ).go()
        }
    }

    /// `Call`: takes the number of arguments and then that many values,
    /// interns the names `args` and `argc`, enters a new frame that
    /// returns behind the call, and goes to `target`. The new frame
    /// knows `argc`, whose slot holds the number of arguments, and,
    /// where there are any, `args`, whose slot holds the argument that
    /// was on top; the others follow it.
    #[verifier::opaque]
    pub open spec fn call(self, target: u16) -> (Machine, ActionModel) {
        if self.stack.len() == 0 {
            self.fault("No value in the stack to define how many parameters to call function"@)
        } else {
            let rest = self.drop(1);
            match self.peek(0) {
                Value::U64(count) => if count > rest.stack.len() {
                    (Machine { stack: Seq::empty(), ..self }).fault(
                        too_few_arguments_text(count, rest.stack.len()),
                    )
                } else {
                    let arguments = rest.stack.skip(rest.stack.len() - count).reverse();
                    let base = rest.drop(count as int);
                    match base.chunk.name_index(args_name()) {
                        Some(args) => {
                            let named = Machine {
                                chunk: base.chunk.add_name(args_name()),
                                ..base
                            };
                            match named.chunk.name_index(argc_name()) {
                                Some(argc) => {
                                    let height = named.stack.len() as usize;
                                    let st = Map::<u16, usize>::empty().insert(argc, height);
                                    (Machine {
                                        chunk: named.chunk.add_name(argc_name()),
                                        frames: named.frames.push(
                                            FrameModel {
                                                st: if count > 0 {
                                                    st.insert(args, (height + 1) as usize)
                                                } else {
                                                    st
                                                },
                                                ra: Some(self.ip),
                                                rsp: height,
                                            },
                                        ),
                                        stack: named.stack.push(Value::U64(count)) + arguments,
                                        ip: target as usize,
                                        ..named
                                    }).go()
                                },
                                None => named.fault(
                                    "The program uses too many variables (65535+)"@,
                                ),
                            }
                        },
                        None => base.fault("The program uses too many variables (65535+)"@),
                    }
                },
                value => rest.fault(
                    "Parameter count must be defined by a variable of type u64 but found type "@
                        + value.type_info_spec(),
                ),
            }
        }
    }

    /// What `instruction` does, with `ip` already behind it.
    #[verifier::opaque]
    pub open spec fn execute(self, instruction: Instruction) -> (Machine, ActionModel)
        recommends
            self.frames.len() > 0,
    {
        match instruction {
            Instruction::Halt => (self, ActionModel::Halt),
            Instruction::Return => self.do_return(),
            Instruction::Negate => self.unary(true),
            Instruction::Not => self.unary(false),
            Instruction::Constant(k) => self.push(self.chunk.constants[k as int]).go(),
            Instruction::GetVar(name) => self.get_var(name),
            Instruction::GetOrCreateVar(name) => self.get_or_create_var(name),
            Instruction::True => self.push(Value::Bool(true)).go(),
            Instruction::False => self.push(Value::Bool(false)).go(),
            Instruction::Print(newline) => self.print(newline),
            Instruction::Pop => self.pop(),
            Instruction::Goto(target) => (Machine { ip: target as usize, ..self }).go(),
            Instruction::JumpIf(target) => self.jump_if(target),
            Instruction::Assign => self.assign(),
            Instruction::Call(target) => self.call(target),
            _ => self.binary(binary_op(instruction).unwrap()),
        }
    }

    /// One step. While float literals wait for their value, the step
    /// asks for the next; a machine without a frame has ended; a machine
    /// whose next instruction lies behind the code fails. Else the step
    /// takes the instruction at `ip`, moves `ip` behind it, and does
    /// what the instruction says.
    pub open spec fn step(self) -> (Machine, ActionModel) {
        if self.resolved < self.chunk.floats.len() {
            (self, ActionModel::Parse { numeral: self.chunk.floats[self.resolved as int].numeral })
        } else if self.frames.len() == 0 {
            (self, ActionModel::Halt)
        } else if self.ip >= self.chunk.code.len() {
            self.fault("Instruction pointer reached end of code without a finishing statement"@)
        } else {
            (Machine { ip: (self.ip + 1) as usize, ..self }).execute(self.chunk.code[self.ip as int])
        }
    }
}

/// A machine that divides a number by a numerically zero value, or
/// takes the remainder, reports the run-time error `Division by 0`.
pub proof fn lemma_division_by_zero_faults(machine: Machine, quotient: bool)
    requires
        machine.stack.len() >= 2,
        machine.peek(1).is_number(),
        machine.peek(0).is_numeric_zero_spec(),
    ensures
        machine.execute(
            if quotient {
                Instruction::Divide
            } else {
                Instruction::Modulo
            },
        ).1 == (ActionModel::Fault { message: "Division by 0"@, line: machine.line() }),
{
    reveal(Machine::execute);
    reveal(Machine::binary);
    crate::value::lemma_division_by_zero(machine.peek(1), machine.peek(0));
}

/// `Not` and then `JumpIf` on a boolean jump where the boolean is false,
/// and go on where it is true; either way the boolean is taken.
pub proof fn lemma_not_then_jump(machine: Machine, condition: bool, target: u16)
    requires
        machine.stack.len() > 0,
        machine.peek(0) == Value::Bool(condition),
    ensures
        machine.unary(false).1 == ActionModel::Continue,
        machine.unary(false).0.jump_if(target) == (
            Machine {
                stack: machine.stack.drop_last(),
                ip: if condition {
                    machine.ip
                } else {
                    target as usize
                },
                ..machine
            },
            ActionModel::Continue,
        ),
{
    reveal(Machine::unary);
    reveal(Machine::jump_if);
    let inverted = machine.unary(false).0;
    assert(inverted.stack =~= machine.stack.drop_last().push(Value::Bool(!condition)));
    assert(inverted.drop(1).stack =~= machine.stack.drop_last());
}

} // verus!
