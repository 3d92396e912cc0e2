//! The virtual machine: runs a chunk one instruction at a time.
//!
//! The machine does no input or output and no float arithmetic. Each
//! call of [`VirtualMachine::step`] takes one instruction and returns an
//! [`Action`], which tells the host what to do before the next call: to
//! write a value, to compute on two floats, to report an error, or to
//! stop.

use std::collections::HashMap;
use vstd::prelude::*;
use vstd::string::*;
use crate::chunk::{operand_in_pool, Chunk, ChunkModel, Instruction};
use crate::compilation::compiled;
use crate::compiler::{texts, Compiler};
use crate::error::{TACError, TACResult};
use crate::machine::{
    binary_op,
    operator_name,
    too_few_operands_text,
    ActionModel,
    FrameModel,
    Machine,
};
use crate::scanner::tokens_of;
use crate::text::push_decimal;
use crate::value::{BinaryOp, FloatOp, Outcome, Value};

verus! {

broadcast use vstd::std_specs::hash::group_hash_axioms;

/// One activation of the program.
#[derive(Debug)]
pub struct Frame {
    st: HashMap<u16, usize>,
    ra: Option<usize>,
    rsp: usize,
}

impl View for Frame {
    type V = FrameModel;

    closed spec fn view(&self) -> FrameModel {
        FrameModel { st: self.st@, ra: self.ra, rsp: self.rsp }
    }
}

impl Default for Frame {
    /// The outermost frame: it knows no variable and returns nowhere.
    fn default() -> (frame: Self)
        ensures
            frame@ == (FrameModel { st: Map::empty(), ra: None, rsp: 0 }),
    {
        Frame::new(None, 0)
    }
}

impl Frame {
    /// A frame that knows no variable, entered at stack height `rsp`.
    fn new(ra: Option<usize>, rsp: usize) -> (frame: Frame)
        ensures
            frame@ == (FrameModel { st: Map::empty(), ra, rsp }),
    {
        Frame { st: HashMap::new(), ra, rsp }
    }
}

/// What the host has to do after a step.
#[derive(Debug)]
pub enum Action {
    /// Nothing: the next step can follow.
    Continue,
    /// The program has ended.
    Halt,
    /// Find the float that `numeral` writes and hand it to
    /// [`VirtualMachine::define_float`].
    Parse { numeral: String },
    /// Write `value`, and a line feed where `newline` is set.
    Print { value: Value, newline: bool },
    /// Compute `lhs op rhs` on floats and hand the result to
    /// [`VirtualMachine::push_float`].
    Float { op: FloatOp, lhs: u64, rhs: u64 },
    /// Report the run-time error `message`, met on source line `line`.
    Fault { message: String, line: usize },
}

impl View for Action {
    type V = ActionModel;

    open spec fn view(&self) -> ActionModel {
        match self {
            Action::Continue => ActionModel::Continue,
            Action::Halt => ActionModel::Halt,
            Action::Parse { numeral } => ActionModel::Parse { numeral: numeral@ },
            Action::Print { value, newline } => ActionModel::Print {
                value: *value,
                newline: *newline,
            },
            Action::Float { op, lhs, rhs } => ActionModel::Float { op: *op, lhs: *lhs, rhs: *rhs },
            Action::Fault { message, line } => ActionModel::Fault {
                message: message@,
                line: *line,
            },
        }
    }
}

/// The virtual machine.
pub struct VirtualMachine {
    chunk: Chunk,
    frames: Vec<Frame>,
    stack: Vec<Value>,
    ip: usize,
    resolved: usize,
    reports: Vec<String>,
}

impl View for VirtualMachine {
    type V = Machine;

    closed spec fn view(&self) -> Machine {
        Machine {
            chunk: self.chunk@,
            frames: Seq::new(self.frames@.len(), |i: int| self.frames@[i]@),
            stack: self.stack@,
            ip: self.ip,
            resolved: self.resolved as nat,
        }
    }
}

fn operator_text(op: BinaryOp) -> (name: &'static str)
    ensures
        name@ == operator_name(op),
{
    match op {
        BinaryOp::Add => "+",
        BinaryOp::Subtract => "-",
        BinaryOp::Multiply => "*",
        BinaryOp::Divide => "/",
        BinaryOp::Modulo => "%",
        BinaryOp::ShiftLeft => "<<",
        BinaryOp::ShiftRight => ">>",
        BinaryOp::Equal => "eq",
        BinaryOp::Greater => "gt",
        BinaryOp::Less => "lt",
    }
}

fn too_few_operands(op: BinaryOp) -> (message: String)
    ensures
        message@ == too_few_operands_text(op),
{
    let mut message = String::from_str("Can not apply operator '");
    message.append(operator_text(op));
    message.append("' because there are not enough values in the stack");
    message
}

fn operator_of(instruction: Instruction) -> (op: Option<BinaryOp>)
    ensures
        op == binary_op(instruction),
{
    match instruction {
        Instruction::Add => Some(BinaryOp::Add),
        Instruction::Subtract => Some(BinaryOp::Subtract),
        Instruction::Multiply => Some(BinaryOp::Multiply),
        Instruction::Divide => Some(BinaryOp::Divide),
        Instruction::Modulo => Some(BinaryOp::Modulo),
        Instruction::ShiftLeft => Some(BinaryOp::ShiftLeft),
        Instruction::ShiftRight => Some(BinaryOp::ShiftRight),
        Instruction::Equal => Some(BinaryOp::Equal),
        Instruction::Greater => Some(BinaryOp::Greater),
        Instruction::Less => Some(BinaryOp::Less),
        _ => None,
    }
}

impl VirtualMachine {
    /// The invariant of the machine: its chunk is well formed, and no
    /// more float literals are defined than the chunk holds.
    pub open spec fn well_formed(&self) -> bool {
        self@.well_formed()
    }

    /// The diagnostics of the last compilation.
    pub closed spec fn diagnostics(&self) -> Seq<Seq<char>> {
        texts(self.reports@)
    }

    /// A machine that holds no program.
    pub fn new() -> (vm: Self)
        ensures
            vm@ == Machine::empty(),
            vm.diagnostics() == Seq::<Seq<char>>::empty(),
            vm.well_formed(),
    {
        let vm = Self {
            chunk: Chunk::new(),
            frames: Vec::new(),
            stack: Vec::new(),
            ip: 0,
            resolved: 0,
            reports: Vec::new(),
        };
        assert(vm@.frames =~= Seq::empty());
        assert(vm.diagnostics() =~= Seq::empty());
        vm
    }

    /// Makes the machine ready to run `source`: compiles it into a new
    /// chunk, and starts over with one frame, an empty stack and the
    /// first instruction. Fails where the source does not compile; the
    /// diagnostics are then in [`VirtualMachine::reports`].
    ///
    /// The program runs by calls of [`VirtualMachine::step`].
    pub fn interpret(&mut self, source: &str) -> (result: TACResult<()>)
        ensures
            final(self)@ == Machine::loaded(
                compiled(tokens_of(source@), ChunkModel::empty()).chunk,
            ),
            final(self).diagnostics() == compiled(tokens_of(source@), ChunkModel::empty()).reports,
            result == if compiled(tokens_of(source@), ChunkModel::empty()).had_error {
                Err::<(), TACError>(TACError::CompileError)
            } else {
                Ok::<(), TACError>(())
            },
            final(self).well_formed(),
    {
        self.chunk = Chunk::new();
        self.frames.clear();
        self.frames.push(Frame::default());
        self.ip = 0;
        self.stack.clear();
        self.resolved = 0;
        let result = Compiler::compile(source, &mut self.chunk, &mut self.reports);
        proof {
            assert(final(self)@.frames =~= seq![FrameModel { st: Map::empty(), ra: None, rsp: 0 }]);
            assert(final(self)@.stack =~= Seq::empty());
        }
        result
    }

    /// Makes the machine ready to run `chunk`, as [`VirtualMachine::interpret`]
    /// does with the chunk that it compiles.
    pub fn load(&mut self, chunk: Chunk)
        requires
            chunk.well_formed(),
        ensures
            final(self)@ == Machine::loaded(chunk@),
            final(self).diagnostics() == Seq::<Seq<char>>::empty(),
            final(self).well_formed(),
    {
        self.chunk = chunk;
        self.frames.clear();
        self.frames.push(Frame::default());
        self.ip = 0;
        self.stack.clear();
        self.resolved = 0;
        self.reports.clear();
        proof {
            assert(final(self)@.frames =~= seq![FrameModel { st: Map::empty(), ra: None, rsp: 0 }]);
            assert(final(self)@.stack =~= Seq::empty());
            assert(final(self).diagnostics() =~= Seq::empty());
        }
    }

    /// The operand stack, lowest value first.
    pub fn stack(&self) -> (stack: &Vec<Value>)
        ensures
            stack@ == self@.stack,
    {
        &self.stack
    }

    /// The number of frames: the calls under way, and the outermost one.
    pub fn depth(&self) -> (depth: usize)
        ensures
            depth == self@.frames.len(),
    {
        self.frames.len()
    }

    /// The chunk that the machine runs.
    pub fn chunk(&self) -> (chunk: &Chunk)
        ensures
            chunk@ == self@.chunk,
    {
        &self.chunk
    }

    /// The index of the next instruction.
    pub fn ip(&self) -> (ip: usize)
        ensures
            ip == self@.ip,
    {
        self.ip
    }

    /// The diagnostics of the last compilation, one line each.
    pub fn reports(&self) -> (reports: &Vec<String>)
        ensures
            texts(reports@) == self.diagnostics(),
    {
        &self.reports
    }

    /// Gives the float literal that [`Action::Parse`] asked for the
    /// value with the bit pattern `bits`.
    pub fn define_float(&mut self, bits: u64)
        requires
            old(self).well_formed(),
        ensures
            final(self).well_formed(),
            final(self)@ == old(self)@.define_float(bits),
            final(self).diagnostics() == old(self).diagnostics(),
    {
        if self.resolved < self.chunk.floats.len() {
            let constant = self.chunk.floats[self.resolved].constant;
            assert(constant == self.chunk@.floats[self.resolved as int].constant);
            self.chunk.set_float(constant, bits);
            self.resolved += 1;
        }
    }

    /// Pushes the float with the bit pattern `bits`: the result that
    /// [`Action::Float`] asked for.
    pub fn push_float(&mut self, bits: u64)
        requires
            old(self).well_formed(),
        ensures
            final(self).well_formed(),
            final(self)@ == old(self)@.push(Value::F64(bits)),
            final(self).diagnostics() == old(self).diagnostics(),
    {
        self.stack.push(Value::F64(bits));
    }

    /// The run-time error `message`, on the line of the instruction at
    /// `ip`.
    fn fault(&self, message: String) -> (action: Action)
        requires
            self.well_formed(),
        ensures
            (self@, action@) == self@.fault(message@),
    {
        let line = if self.chunk.lines.len() == 0 {
            0
        } else {
            self.chunk.get_line(self.ip)
        };
        Action::Fault { message, line }
    }

    /// One step of the program.
    pub fn step(&mut self) -> (action: Action)
        requires
            old(self).well_formed(),
        ensures
            final(self).well_formed(),
            (final(self)@, action@) == old(self)@.step(),
            final(self).diagnostics() == old(self).diagnostics(),
    {
        if self.resolved < self.chunk.floats.len() {
            let numeral = self.chunk.floats[self.resolved].numeral.clone();
            assert(numeral@ == self.chunk@.floats[self.resolved as int].numeral);
            return Action::Parse { numeral };
        }
        if self.frames.len() == 0 {
            return Action::Halt;
        }
        if self.ip >= self.chunk.code.len() {
            return self.fault(
                String::from_str(
                    "Instruction pointer reached end of code without a finishing statement",
                ),
            );
        }
        let instruction = self.chunk.code[self.ip];
        self.ip += 1;
        self.execute(instruction)
    }

    /// Does what `instruction` says, with `ip` already behind it.
    fn execute(&mut self, instruction: Instruction) -> (action: Action)
        requires
            old(self).well_formed(),
            old(self)@.frames.len() > 0,
            operand_in_pool(
                instruction,
                old(self)@.chunk.constants.len(),
                old(self)@.chunk.names.len(),
            ),
        ensures
            final(self).well_formed(),
            (final(self)@, action@) == old(self)@.execute(instruction),
            final(self).diagnostics() == old(self).diagnostics(),
    {
        reveal(Machine::execute);
        match instruction {
            Instruction::Halt => Action::Halt,
            Instruction::Return => self.leave(),
            Instruction::Negate => self.negate(),
            Instruction::Not => self.not(),
            Instruction::Constant(addr) => self.constant(addr),
            Instruction::GetVar(name_addr) => self.get_var(name_addr),
            Instruction::GetOrCreateVar(name_addr) => self.get_or_create_var(name_addr),
            Instruction::True => {
                self.stack.push(Value::Bool(true));
                Action::Continue
            },
            Instruction::False => {
                self.stack.push(Value::Bool(false));
                Action::Continue
            },
            Instruction::Print(nl) => self.print(nl),
            Instruction::Pop => self.pop(),
            Instruction::Goto(ip) => {
                self.ip = ip as usize;
                Action::Continue
            },
            Instruction::JumpIf(ip) => self.jump_if(ip),
            Instruction::Assign => self.assign(),
            Instruction::Call(ip) => self.call(ip),
            other => match operator_of(other) {
                Some(op) => self.binary(op),
                None => Action::Continue,
            },
        }
    }

    /// `Return`.
    fn leave(&mut self) -> (action: Action)
        requires
            old(self).well_formed(),
            old(self)@.frames.len() > 0,
        ensures
            final(self).well_formed(),
            (final(self)@, action@) == old(self)@.do_return(),
            final(self).diagnostics() == old(self).diagnostics(),
    {
        reveal(Machine::do_return);
        let frame = self.frames.pop().unwrap();
        assert(frame@ == old(self)@.frames.last());
        assert(self@.frames =~= old(self)@.frames.drop_last());
        match frame.ra {
            Some(ip) => {
                self.stack.truncate(frame.rsp);
                self.ip = ip;
                assert(self@.stack =~= if frame.rsp < old(self)@.stack.len() {
                    old(self)@.stack.take(frame.rsp as int)
                } else {
                    old(self)@.stack
                });
                Action::Continue
            },
            None => Action::Halt,
        }
    }

    /// A binary operator.
    fn binary(&mut self, op: BinaryOp) -> (action: Action)
        requires
            old(self).well_formed(),
        ensures
            final(self).well_formed(),
            (final(self)@, action@) == old(self)@.binary(op),
            final(self).diagnostics() == old(self).diagnostics(),
    {
        reveal(Machine::binary);
        let b = match self.stack.pop() {
            Some(value) => value,
            None => {
                return self.fault(too_few_operands(op));
            },
        };
        assert(self@.stack =~= old(self)@.drop(1).stack);
        let a = match self.stack.pop() {
            Some(value) => value,
            None => {
                return self.fault(too_few_operands(op));
            },
        };
        assert(self@.stack =~= old(self)@.drop(2).stack);
        match Value::apply(op, a, b) {
            Ok(Outcome::Done(value)) => {
                self.stack.push(value);
                Action::Continue
            },
            Ok(Outcome::Float { op, lhs, rhs }) => Action::Float { op, lhs, rhs },
            Err(message) => self.fault(message),
        }
    }

    /// `Negate`.
    fn negate(&mut self) -> (action: Action)
        requires
            old(self).well_formed(),
        ensures
            final(self).well_formed(),
            (final(self)@, action@) == old(self)@.unary(true),
            final(self).diagnostics() == old(self).diagnostics(),
    {
        reveal(Machine::unary);
        match self.stack.pop() {
            Some(value) => {
                let mut top = value;
                let result = top.arithmetic_negate();
                self.stack.push(top);
                match result {
                    Ok(_) => {
                        assert(self@.stack =~= old(self)@.drop(1).push(top).stack);
                        Action::Continue
                    },
                    Err(message) => {
                        assert(self@.stack =~= old(self)@.stack);
                        self.fault(message)
                    },
                }
            },
            None => self.fault(
                String::from_str(
                    "Can not apply unary operator '-' because there is not a value in the stack",
                ),
            ),
        }
    }

    /// `Not`.
    fn not(&mut self) -> (action: Action)
        requires
            old(self).well_formed(),
        ensures
            final(self).well_formed(),
            (final(self)@, action@) == old(self)@.unary(false),
            final(self).diagnostics() == old(self).diagnostics(),
    {
        reveal(Machine::unary);
        match self.stack.pop() {
            Some(value) => {
                let mut top = value;
                let result = top.logic_negate();
                self.stack.push(top);
                match result {
                    Ok(_) => {
                        assert(self@.stack =~= old(self)@.drop(1).push(top).stack);
                        Action::Continue
                    },
                    Err(message) => {
                        assert(self@.stack =~= old(self)@.stack);
                        self.fault(message)
                    },
                }
            },
            None => self.fault(
                String::from_str(
                    "Can not apply unary operator '-' because there is not a value in the stack",
                ),
            ),
        }
    }

    /// `Constant`.
    fn constant(&mut self, addr: u16) -> (action: Action)
        requires
            old(self).well_formed(),
            addr < old(self)@.chunk.constants.len(),
        ensures
            final(self).well_formed(),
            (final(self)@, action@) == old(self)@.push(
                old(self)@.chunk.constants[addr as int],
            ).go(),
            final(self).diagnostics() == old(self).diagnostics(),
    {
        let value = self.read_constant(addr);
        self.stack.push(value);
        Action::Continue
    }

    fn read_constant(&self, addr: u16) -> (value: Value)
        requires
            addr < self@.chunk.constants.len(),
        ensures
            value == self@.chunk.constants[addr as int],
    {
        self.chunk.get_constant(addr)
    }

    /// `Print`.
    fn print(&mut self, nl: bool) -> (action: Action)
        requires
            old(self).well_formed(),
        ensures
            final(self).well_formed(),
            (final(self)@, action@) == old(self)@.print(nl),
            final(self).diagnostics() == old(self).diagnostics(),
    {
        reveal(Machine::print);
        match self.stack.pop() {
            Some(value) => {
                assert(self@.stack =~= old(self)@.drop(1).stack);
                Action::Print { value, newline: nl }
            },
            None => self.fault(String::from_str("No value in the stack to print")),
        }
    }

    /// `Pop`.
    fn pop(&mut self) -> (action: Action)
        requires
            old(self).well_formed(),
        ensures
            final(self).well_formed(),
            (final(self)@, action@) == old(self)@.pop(),
            final(self).diagnostics() == old(self).diagnostics(),
    {
        reveal(Machine::pop);
        match self.stack.pop() {
            Some(_) => {
                assert(self@.stack =~= old(self)@.drop(1).stack);
                Action::Continue
            },
            None => self.fault(String::from_str("No value in the stack to pop")),
        }
    }

    /// `JumpIf`.
    fn jump_if(&mut self, ip: u16) -> (action: Action)
        requires
            old(self).well_formed(),
        ensures
            final(self).well_formed(),
            (final(self)@, action@) == old(self)@.jump_if(ip),
            final(self).diagnostics() == old(self).diagnostics(),
    {
        reveal(Machine::jump_if);
        let value = match self.stack.pop() {
            Some(value) => value,
            None => {
                return self.fault(String::from_str("No value in the stack to check condition"));
            },
        };
        assert(self@.stack =~= old(self)@.drop(1).stack);
        match value {
            Value::Bool(true) => {
                self.ip = ip as usize;
                Action::Continue
            },
            Value::Bool(false) => Action::Continue,
            v => {
                let mut message = String::from_str("Invalid type '");
                message.append(v.type_info());
                message.append("' for condition, 'bool' required.");
                self.fault(message)
            },
        }
    }

    /// `Assign`.
    fn assign(&mut self) -> (action: Action)
        requires
            old(self).well_formed(),
        ensures
            final(self).well_formed(),
            (final(self)@, action@) == old(self)@.assign(),
            final(self).diagnostics() == old(self).diagnostics(),
    {
        reveal(Machine::assign);
        let value = match self.stack.pop() {
            Some(value) => value,
            None => {
                return self.fault(String::from_str("No value in the stack to assign"));
            },
        };
        assert(self@.stack =~= old(self)@.drop(1).stack);
        let addr = match self.stack.pop() {
            Some(value) => value,
            None => {
                return self.fault(String::from_str("No address in the stack to assign to"));
            },
        };
        assert(self@.stack =~= old(self)@.drop(2).stack);
        if let Value::Addr(slot) = addr {
            if slot < self.stack.len() {
                self.stack.set(slot, value);
                Action::Continue
            } else {
                self.fault(String::from_str("Assignment target points to invalid stack address"))
            }
        } else {
            self.fault(String::from_str("Assignment target in stack is not valid"))
        }
    }

    /// The slot of the variable `name_addr` in the current frame.
    fn slot_of(&self, name_addr: u16) -> (slot: Option<usize>)
        requires
            self@.frames.len() > 0,
        ensures
            slot == if self@.frames.last().st.contains_key(name_addr) {
                Some(self@.frames.last().st[name_addr])
            } else {
                None
            },
    {
        let frame = &self.frames[self.frames.len() - 1];
        assert(frame@ == self@.frames.last());
        match frame.st.get(&name_addr) {
            Some(slot) => Some(*slot),
            None => None,
        }
    }

    /// `GetVar`.
    fn get_var(&mut self, name_addr: u16) -> (action: Action)
        requires
            old(self).well_formed(),
            old(self)@.frames.len() > 0,
            name_addr < old(self)@.chunk.names.len(),
        ensures
            final(self).well_formed(),
            (final(self)@, action@) == old(self)@.get_var(name_addr),
            final(self).diagnostics() == old(self).diagnostics(),
    {
        reveal(Machine::get_var);
        match self.slot_of(name_addr) {
            None => {
                let mut message = String::from_str("Variable ");
                message.append(self.chunk.get_name(name_addr));
                message.append(" is undefined");
                self.fault(message)
            },
            Some(addr) => {
                if addr < self.stack.len() {
                    let value = self.stack[addr];
                    self.stack.push(value);
                    Action::Continue
                } else {
                    let mut message = String::from_str("Variable ");
                    message.append(self.chunk.get_name(name_addr));
                    message.append(" has invalid address on symbol table");
                    self.fault(message)
                }
            },
        }
    }

    /// Notes in the current frame that the variable `name_addr` has the
    /// slot `slot`.
    fn bind(&mut self, name_addr: u16, slot: usize)
        requires
            old(self)@.frames.len() > 0,
        ensures
            final(self)@ == old(self)@.with_symbols(
                old(self)@.frames.last().st.insert(name_addr, slot),
            ),
            final(self).diagnostics() == old(self).diagnostics(),
    {
        let mut frame = self.frames.pop().unwrap();
        assert(frame@ == old(self)@.frames.last());
        frame.st.insert(name_addr, slot);
        self.frames.push(frame);
        assert(self@.frames =~= old(self)@.with_symbols(
            old(self)@.frames.last().st.insert(name_addr, slot),
        ).frames);
    }

    /// `GetOrCreateVar`.
    fn get_or_create_var(&mut self, name_addr: u16) -> (action: Action)
        requires
            old(self).well_formed(),
            old(self)@.frames.len() > 0,
        ensures
            final(self).well_formed(),
            (final(self)@, action@) == old(self)@.get_or_create_var(name_addr),
            final(self).diagnostics() == old(self).diagnostics(),
    {
        reveal(Machine::get_or_create_var);
        let cur_sp = self.stack.len();
        let addr = match self.slot_of(name_addr) {
            Some(addr) => addr,
            None => {
                self.bind(name_addr, cur_sp);
                self.stack.push(Value::U64(0));
                cur_sp
            },
        };
        self.stack.push(Value::Addr(addr));
        Action::Continue
    }

    /// `Call`.
    fn call(&mut self, ip: u16) -> (action: Action)
        requires
            old(self).well_formed(),
        ensures
            final(self).well_formed(),
            (final(self)@, action@) == old(self)@.call(ip),
            final(self).diagnostics() == old(self).diagnostics(),
    {
        reveal(Machine::call);
        let param_count = match self.stack.pop() {
            Some(value) => value,
            None => {
                return self.fault(
                    String::from_str(
                        "No value in the stack to define how many parameters to call function",
                    ),
                );
            },
        };
        assert(self@.stack =~= old(self)@.drop(1).stack);
        let count = match param_count {
            Value::U64(count) => count,
            other => {
                let mut message = String::from_str(
                    "Parameter count must be defined by a variable of type u64 but found type ",
                );
                message.append(other.type_info());
                return self.fault(message);
            },
        };
        let found = self.stack.len();
        if count > found as u64 {
            self.stack.clear();
            assert(self@.stack =~= Seq::empty());
            let mut message = String::from_str("Method called with ");
            push_decimal(&mut message, count);
            message.append(" parameters but ");
            push_decimal(&mut message, found as u64);
            message.append(" were found in the stack");
            return self.fault(message);
        }
        let ghost rest = self@.stack;
        let mut parameters: Vec<Value> = Vec::new();
        let mut i: u64 = 0;
        while i < count
            invariant
                i <= count <= rest.len(),
                self.stack@ == rest.take(rest.len() - i),
                parameters@ == rest.skip(rest.len() - i).reverse(),
                self.chunk == old(self).chunk,
                self.frames == old(self).frames,
                self.ip == old(self).ip,
                self.resolved == old(self).resolved,
                self.reports == old(self).reports,
            decreases count - i,
        {
            let value = self.stack.pop().unwrap();
            parameters.push(value);
            proof {
                assert(self.stack@ =~= rest.take(rest.len() - (i + 1)));
                assert(parameters@ =~= rest.skip(rest.len() - (i + 1)).reverse());
            }
            i += 1;
        }
        let args = match self.chunk.add_name("args") {
            Ok(index) => index,
            Err(_) => {
                return self.fault(String::from_str("The program uses too many variables (65535+)"));
            },
        };
        let argc = match self.chunk.add_name("argc") {
            Ok(index) => index,
            Err(_) => {
                return self.fault(String::from_str("The program uses too many variables (65535+)"));
            },
        };
        let height = self.stack.len();
        let ghost named = self@;
        self.frames.push(Frame::new(Some(self.ip), height));
        assert(self@.frames =~= named.frames.push(
            FrameModel { st: Map::empty(), ra: Some(self.ip), rsp: height },
        ));
        self.bind(argc, height);
        let ghost st = Map::<u16, usize>::empty().insert(argc, height);
        assert(self@.frames =~= named.frames.push(
            FrameModel { st, ra: Some(self.ip), rsp: height },
        ));
        self.stack.push(Value::U64(count));
        if count > 0 {
            self.bind(args, self.stack.len());
            assert(self@.frames =~= named.frames.push(
                FrameModel {
                    st: st.insert(args, (height + 1) as usize),
                    ra: Some(self.ip),
                    rsp: height,
                },
            ));
            let ghost entered = self@;
            let mut k: usize = 0;
            assert(parameters@.take(0) =~= Seq::empty());
            while k < parameters.len()
                invariant
                    k <= parameters@.len(),
                    self.well_formed(),
                    self.diagnostics() == old(self).diagnostics(),
                    self@ == (Machine {
                        stack: named.stack.push(Value::U64(count)) + parameters@.take(k as int),
                        ..entered
                    }),
                decreases parameters@.len() - k,
            {
                self.stack.push(parameters[k]);
                proof {
                    assert(parameters@.take(k + 1) =~= parameters@.take(k as int).push(
                        parameters@[k as int],
                    ));
                    assert(self@.stack =~= named.stack.push(Value::U64(count)) + parameters@.take(
                        k + 1,
                    ));
                }
                k += 1;
            }
            assert(parameters@.take(parameters@.len() as int) =~= parameters@);
        } else {
            assert(parameters@ =~= Seq::empty());
            assert(self@.stack =~= named.stack.push(Value::U64(count)) + parameters@);
        }
        self.ip = ip as usize;
        Action::Continue
    }
}

} // verus!
