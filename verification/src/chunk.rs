//! The compiled program: code, constant pool, name pool and line map.

use vstd::prelude::*;
use vstd::string::*;
use crate::text::same_text;
use crate::value::Value;

verus! {

/// One instruction of the machine. Operands index the pools of the chunk
/// or, for jumps and calls, its code.
#[derive(Copy, Clone, Debug, PartialEq, Eq, Structural)]
pub enum Instruction {
    Return,
    Add,
    Subtract,
    Multiply,
    Divide,
    Modulo,
    ShiftLeft,
    ShiftRight,
    Negate,
    Call(u16),
    True,
    False,
    Not,
    Equal,
    Greater,
    Less,
    GetVar(u16),
    GetOrCreateVar(u16),
    Assign,
    JumpIf(u16),
    Goto(u16),
    Pop,
    Print(bool),
    Constant(u16),
    Halt,
}

impl Instruction {
    /// The name of the instruction in a listing. Both jumps are listed as
    /// `JUMP`.
    pub open spec fn mnemonic_spec(self) -> Seq<char> {
        match self {
            Instruction::Return => "RETURN"@,
            Instruction::Add => "ADD"@,
            Instruction::Subtract => "SUBTRACT"@,
            Instruction::Multiply => "MULTIPLY"@,
            Instruction::Divide => "DIVIDE"@,
            Instruction::Modulo => "MODULO"@,
            Instruction::ShiftLeft => "SHIFT_LEFT"@,
            Instruction::ShiftRight => "SHIFT_RIGHT"@,
            Instruction::Negate => "NEGATE"@,
            Instruction::Call(_) => "CALL"@,
            Instruction::True => "TRUE"@,
            Instruction::False => "FALSE"@,
            Instruction::Not => "NOT"@,
            Instruction::Equal => "EQUAL"@,
            Instruction::Greater => "GREATER"@,
            Instruction::Less => "LESS"@,
            Instruction::GetVar(_) => "GET_VAR"@,
            Instruction::GetOrCreateVar(_) => "GET_OR_CREATE_VAR"@,
            Instruction::Assign => "ASSIGN"@,
            Instruction::JumpIf(_) => "JUMP"@,
            Instruction::Goto(_) => "JUMP"@,
            Instruction::Pop => "POP"@,
            Instruction::Print(_) => "PRINT"@,
            Instruction::Constant(_) => "CONSTANT"@,
            Instruction::Halt => "HALT"@,
        }
    }

    pub fn mnemonic(&self) -> (name: &'static str)
        ensures
            name@ == self.mnemonic_spec(),
    {
        match self {
            Instruction::Return => "RETURN",
            Instruction::Add => "ADD",
            Instruction::Subtract => "SUBTRACT",
            Instruction::Multiply => "MULTIPLY",
            Instruction::Divide => "DIVIDE",
            Instruction::Modulo => "MODULO",
            Instruction::ShiftLeft => "SHIFT_LEFT",
            Instruction::ShiftRight => "SHIFT_RIGHT",
            Instruction::Negate => "NEGATE",
            Instruction::Call(_) => "CALL",
            Instruction::True => "TRUE",
            Instruction::False => "FALSE",
            Instruction::Not => "NOT",
            Instruction::Equal => "EQUAL",
            Instruction::Greater => "GREATER",
            Instruction::Less => "LESS",
            Instruction::GetVar(_) => "GET_VAR",
            Instruction::GetOrCreateVar(_) => "GET_OR_CREATE_VAR",
            Instruction::Assign => "ASSIGN",
            Instruction::JumpIf(_) => "JUMP",
            Instruction::Goto(_) => "JUMP",
            Instruction::Pop => "POP",
            Instruction::Print(_) => "PRINT",
            Instruction::Constant(_) => "CONSTANT",
            Instruction::Halt => "HALT",
        }
    }
}

/// An entry of the line map: from the instruction at `offset` on, the
/// code comes from source line `line`.
#[derive(Copy, Clone, Debug, PartialEq, Eq, Structural)]
pub struct LineStart {
    pub offset: usize,
    pub line: usize,
}

impl LineStart {
    pub fn new(offset: usize, line: usize) -> (start: Self)
        ensures
            start.offset == offset,
            start.line == line,
    {
        Self { offset, line }
    }
}

/// The number of entries that a pool can hold.
pub const POOL_CAPACITY: usize = 65535;

/// A float literal of the source whose value the host still has to
/// supply: the constant it belongs to and its numeral.
pub struct FloatLiteral {
    pub constant: u16,
    pub numeral: String,
    pub line: usize,
}

/// A compiled program.
pub struct Chunk {
    pub code: Vec<Instruction>,
    pub constants: Vec<Value>,
    pub names: Vec<String>,
    pub lines: Vec<LineStart>,
    pub floats: Vec<FloatLiteral>,
}

/// What a float literal is in contracts.
pub struct FloatLiteralModel {
    pub constant: u16,
    pub numeral: Seq<char>,
    pub line: usize,
}

/// What a chunk is in contracts.
pub struct ChunkModel {
    pub code: Seq<Instruction>,
    pub constants: Seq<Value>,
    pub names: Seq<Seq<char>>,
    pub lines: Seq<LineStart>,
    pub floats: Seq<FloatLiteralModel>,
}

impl View for FloatLiteral {
    type V = FloatLiteralModel;

    open spec fn view(&self) -> FloatLiteralModel {
        FloatLiteralModel { constant: self.constant, numeral: self.numeral@, line: self.line }
    }
}

impl View for Chunk {
    type V = ChunkModel;

    open spec fn view(&self) -> ChunkModel {
        ChunkModel {
            code: self.code@,
            constants: self.constants@,
            names: Seq::new(self.names@.len(), |i: int| self.names@[i]@),
            lines: self.lines@,
            floats: Seq::new(self.floats@.len(), |i: int| self.floats@[i]@),
        }
    }
}

/// The line of the last entry of `lines` whose offset is at most `index`;
/// 0 where there is none.
pub open spec fn line_at(lines: Seq<LineStart>, index: int) -> usize
    decreases lines.len(),
{
    if lines.len() == 0 {
        0
    } else if lines.last().offset <= index {
        lines.last().line
    } else {
        line_at(lines.drop_last(), index)
    }
}

/// Where a jump goes: the operand of a `Goto` or a `JumpIf`.
pub open spec fn jump_target(instruction: Instruction) -> Option<u16> {
    match instruction {
        Instruction::Goto(target) => Some(target),
        Instruction::JumpIf(target) => Some(target),
        _ => None,
    }
}

/// Whether every operand of `instruction` that indexes a pool is inside
/// that pool.
pub open spec fn operand_in_pool(instruction: Instruction, constants: nat, names: nat) -> bool {
    match instruction {
        Instruction::Constant(k) => k < constants,
        Instruction::GetVar(n) => n < names,
        Instruction::GetOrCreateVar(n) => n < names,
        _ => true,
    }
}

impl ChunkModel {
    pub open spec fn empty() -> ChunkModel {
        ChunkModel {
            code: Seq::empty(),
            constants: Seq::empty(),
            names: Seq::empty(),
            lines: Seq::empty(),
            floats: Seq::empty(),
        }
    }

    /// The invariant of a chunk: the line map starts at instruction 0,
    /// stays inside the code, and rises strictly in offset and in line;
    /// the pools keep to their capacity; no name occurs twice; every
    /// operand that indexes a pool is inside it; every float literal
    /// belongs to a float constant.
    pub open spec fn well_formed(self) -> bool {
        &&& (self.code.len() > 0 ==> self.lines.len() > 0)
        &&& (self.lines.len() > 0 ==> self.lines[0].offset == 0)
        &&& forall|i: int| 0 <= i < self.lines.len() ==> (#[trigger] self.lines[i]).offset < self.code.len()
        &&& forall|i: int, j: int|
            0 <= i < j < self.lines.len() ==> (#[trigger] self.lines[i]).offset < (
            #[trigger] self.lines[j]).offset && self.lines[i].line < self.lines[j].line
        &&& self.constants.len() <= POOL_CAPACITY
        &&& self.names.len() <= POOL_CAPACITY
        &&& self.names.no_duplicates()
        &&& forall|i: int|
            0 <= i < self.code.len() ==> operand_in_pool(
                #[trigger] self.code[i],
                self.constants.len(),
                self.names.len(),
            )
        &&& forall|i: int|
            0 <= i < self.floats.len() ==> (#[trigger] self.floats[i]).constant
                < self.constants.len() && self.constants[self.floats[i].constant as int] is F64
    }

    /// The line of the last instruction; 0 for an empty chunk.
    pub open spec fn last_line(self) -> usize {
        if self.lines.len() == 0 {
            0
        } else {
            self.lines.last().line
        }
    }

    /// The source line of the instruction at `index`.
    pub open spec fn line_of(self, index: int) -> usize {
        line_at(self.lines, index)
    }

    /// The chunk after `instruction`, read on `line`, is appended.
    pub open spec fn write(self, instruction: Instruction, line: usize) -> ChunkModel {
        ChunkModel {
            code: self.code.push(instruction),
            lines: if self.lines.len() > 0 && self.lines.last().line == line {
                self.lines
            } else {
                self.lines.push(LineStart { offset: self.code.len() as usize, line })
            },
            ..self
        }
    }

    /// Whether `value` can still be added to the constant pool.
    pub open spec fn has_room_for_constant(self) -> bool {
        self.constants.len() < POOL_CAPACITY
    }

    /// The chunk after `value` is added to the constant pool.
    pub open spec fn add_constant(self, value: Value) -> ChunkModel {
        ChunkModel { constants: self.constants.push(value), ..self }
    }

    /// The chunk after a float constant is added whose value is still
    /// to come: the constant stands as float zero, and the numeral is
    /// noted with the line it was read on.
    pub open spec fn add_float(self, numeral: Seq<char>, line: usize) -> ChunkModel {
        ChunkModel {
            constants: self.constants.push(Value::F64(0)),
            floats: self.floats.push(
                FloatLiteralModel { constant: self.constants.len() as u16, numeral, line },
            ),
            ..self
        }
    }

    /// The chunk after the float constant at `constant` is given the
    /// value with the bit pattern `bits`; nothing changes where the pool
    /// holds no float there.
    pub open spec fn set_float(self, constant: u16, bits: u64) -> ChunkModel {
        if constant < self.constants.len() && self.constants[constant as int] is F64 {
            ChunkModel { constants: self.constants.update(constant as int, Value::F64(bits)), ..self }
        } else {
            self
        }
    }

    /// The index that interning `name` gives: that of the name where the
    /// pool holds it, else the next free one; `None` where the pool is
    /// full and does not hold it.
    pub open spec fn name_index(self, name: Seq<char>) -> Option<u16> {
        if self.names.contains(name) {
            Some(self.names.index_of(name) as u16)
        } else if self.names.len() < POOL_CAPACITY {
            Some(self.names.len() as u16)
        } else {
            None
        }
    }

    /// The chunk after `name` is interned.
    pub open spec fn add_name(self, name: Seq<char>) -> ChunkModel {
        if self.names.contains(name) || self.names.len() >= POOL_CAPACITY {
            self
        } else {
            ChunkModel { names: self.names.push(name), ..self }
        }
    }
}

impl Default for Chunk {
    /// An empty chunk.
    fn default() -> (chunk: Self)
        ensures
            chunk@ == ChunkModel::empty(),
            chunk.well_formed(),
    {
        Chunk::new()
    }
}

impl Chunk {
    pub open spec fn well_formed(&self) -> bool {
        self@.well_formed()
    }

    /// An empty chunk.
    pub fn new() -> (chunk: Self)
        ensures
            chunk@ == ChunkModel::empty(),
            chunk.well_formed(),
    {
        let chunk = Self {
            code: Vec::new(),
            constants: Vec::new(),
            names: Vec::new(),
            lines: Vec::new(),
            floats: Vec::new(),
        };
        assert(chunk@.names =~= Seq::empty());
        assert(chunk@.floats =~= Seq::empty());
        chunk
    }

    /// Appends `instruction`, read on source line `line`, and returns its
    /// index. The line map gets a new entry only where the line changes.
    pub fn write(&mut self, instruction: Instruction, line: usize) -> (index: usize)
        requires
            old(self).well_formed(),
            old(self)@.last_line() <= line,
            operand_in_pool(instruction, old(self)@.constants.len(), old(self)@.names.len()),
        ensures
            final(self)@ == old(self)@.write(instruction, line),
            index == old(self)@.code.len(),
            final(self).well_formed(),
            final(self)@.last_line() == line,
    {
        let index = self.code.len();
        self.code.push(instruction);
        let same_line = self.lines.len() > 0 && self.lines[self.lines.len() - 1].line == line;
        if !same_line {
            self.lines.push(LineStart::new(index, line));
        }
        proof {
            assert(final(self)@.names =~= old(self)@.names);
            assert(final(self)@.floats =~= old(self)@.floats);
            assert(final(self)@ == old(self)@.write(instruction, line));
        }
        index
    }

    /// Adds `value` to the constant pool and returns its index; fails,
    /// and changes nothing, where the pool is full.
    pub fn add_constant(&mut self, value: Value) -> (result: Result<u16, &'static str>)
        requires
            old(self).well_formed(),
        ensures
            final(self).well_formed(),
            match result {
                Ok(index) => old(self)@.has_room_for_constant() && index == old(self)@.constants.len()
                    && final(self)@ == old(self)@.add_constant(value),
                Err(message) => !old(self)@.has_room_for_constant() && final(self)@ == old(self)@
                    && message@ == "Could not add constant, reached limit of u16 max size"@,
            },
    {
        let index = self.constants.len();
        if index < POOL_CAPACITY {
            self.constants.push(value);
            proof {
                assert(final(self)@.names =~= old(self)@.names);
                assert(final(self)@.floats =~= old(self)@.floats);
                assert(final(self)@ == old(self)@.add_constant(value));
            }
            Ok(index as u16)
        } else {
            Err("Could not add constant, reached limit of u16 max size")
        }
    }

    /// Adds a float constant whose value is still to come, notes its
    /// numeral and returns the index of the constant; fails, and changes
    /// nothing, where the pool is full.
    pub fn add_float(&mut self, numeral: &str, line: usize) -> (result: Result<u16, &'static str>)
        requires
            old(self).well_formed(),
        ensures
            final(self).well_formed(),
            match result {
                Ok(index) => old(self)@.has_room_for_constant() && index == old(self)@.constants.len()
                    && final(self)@ == old(self)@.add_float(numeral@, line),
                Err(message) => !old(self)@.has_room_for_constant() && final(self)@ == old(self)@
                    && message@ == "Could not add constant, reached limit of u16 max size"@,
            },
    {
        let index = self.constants.len();
        if index < POOL_CAPACITY {
            self.constants.push(Value::F64(0));
            self.floats.push(
                FloatLiteral { constant: index as u16, numeral: String::from_str(numeral), line },
            );
            proof {
                assert(final(self)@.names =~= old(self)@.names);
                assert(final(self)@.floats =~= old(self)@.add_float(numeral@, line).floats);
                assert(final(self)@ == old(self)@.add_float(numeral@, line));
                assert forall|i: int| 0 <= i < final(self)@.floats.len() implies (
                #[trigger] final(self)@.floats[i]).constant < final(self)@.constants.len()
                    && final(self)@.constants[final(self)@.floats[i].constant as int] is F64 by {
                    if i < old(self)@.floats.len() {
                        assert(final(self)@.floats[i] == old(self)@.floats[i]);
                    }
                }
            }
            Ok(index as u16)
        } else {
            Err("Could not add constant, reached limit of u16 max size")
        }
    }

    /// Gives the float constant at `constant` the value with the bit
    /// pattern `bits`, and says whether the pool holds a float there.
    pub fn set_float(&mut self, constant: u16, bits: u64) -> (changed: bool)
        requires
            old(self).well_formed(),
        ensures
            final(self).well_formed(),
            final(self)@ == old(self)@.set_float(constant, bits),
            changed == (constant < old(self)@.constants.len() && old(self)@.constants[constant as int] is F64),
    {
        let k = constant as usize;
        if k < self.constants.len() {
            if let Value::F64(_) = self.constants[k] {
                self.constants.set(k, Value::F64(bits));
                proof {
                    assert(final(self)@.names =~= old(self)@.names);
                    assert(final(self)@.floats =~= old(self)@.floats);
                    assert(final(self)@ == old(self)@.set_float(constant, bits));
                }
                return true;
            }
        }
        false
    }

    /// The constant at `addr`.
    pub fn get_constant(&self, addr: u16) -> (value: Value)
        requires
            addr < self@.constants.len(),
        ensures
            value == self@.constants[addr as int],
    {
        self.constants[addr as usize]
    }

    /// Interns `name`: returns the index that the pool holds it at, after
    /// adding it where it was not there. Fails, and changes nothing,
    /// where the name is new and the pool is full.
    pub fn add_name(&mut self, name: &str) -> (result: Result<u16, &'static str>)
        requires
            old(self).well_formed(),
        ensures
            final(self).well_formed(),
            final(self)@ == old(self)@.add_name(name@),
            match result {
                Ok(index) => old(self)@.name_index(name@) == Some(index) && index
                    < final(self)@.names.len() && final(self)@.names[index as int] == name@,
                Err(message) => old(self)@.name_index(name@) is None && message@
                    == "Could not add name, reached limit of u16 max size"@,
            },
    {
        let mut i: usize = 0;
        while i < self.names.len()
            invariant
                i <= self.names.len(),
                *self == *old(self),
                self.well_formed(),
                forall|k: int| 0 <= k < i ==> self@.names[k] != name@,
            decreases self.names.len() - i,
        {
            if same_text(self.names[i].as_str(), name) {
                proof {
                    let names = self@.names;
                    assert(names[i as int] == name@);
                    assert(names.contains(name@));
                    let k = names.index_of(name@);
                    assert(names[k] == name@);
                }
                return Ok(i as u16);
            }
            i += 1;
        }
        proof {
            let names = self@.names;
            if names.contains(name@) {
                let k = choose|k: int| 0 <= k < names.len() && names[k] == name@;
                assert(false);
            }
        }
        let index = self.names.len();
        if index < POOL_CAPACITY {
            self.names.push(String::from_str(name));
            proof {
                assert(final(self)@.names =~= old(self)@.names.push(name@));
                assert(final(self)@.floats =~= old(self)@.floats);
                assert(final(self)@ == old(self)@.add_name(name@));
                assert forall|a: int, b: int|
                    0 <= a < final(self)@.names.len() && 0 <= b < final(self)@.names.len() && a
                        != b implies final(self)@.names[a] != final(self)@.names[b] by {
                    if a < index && b < index {
                        assert(old(self)@.names[a] != old(self)@.names[b]);
                    }
                }
            }
            Ok(index as u16)
        } else {
            Err("Could not add name, reached limit of u16 max size")
        }
    }

    /// The name at `addr`.
    pub fn get_name(&self, addr: u16) -> (name: &str)
        requires
            addr < self@.names.len(),
        ensures
            name@ == self@.names[addr as int],
    {
        self.names[addr as usize].as_str()
    }

    /// The line that a listing shows beside the instruction at `idx`: its
    /// source line, unless the instruction before it comes from the same
    /// line.
    pub fn listed_line(&self, idx: usize) -> (line: Option<usize>)
        requires
            self.well_formed(),
            self@.lines.len() > 0,
        ensures
            line == if idx > 0 && self@.line_of(idx as int) == self@.line_of(idx - 1) {
                None
            } else {
                Some(self@.line_of(idx as int))
            },
    {
        let line = self.get_line(idx);
        if idx > 0 && line == self.get_line(idx - 1) {
            None
        } else {
            Some(line)
        }
    }

    /// The source line of the instruction at `instruction_idx`: the line
    /// of the last entry of the line map that starts at or before it.
    pub fn get_line(&self, instruction_idx: usize) -> (line: usize)
        requires
            self.well_formed(),
            self@.lines.len() > 0,
        ensures
            line == self@.line_of(instruction_idx as int),
    {
        let mut left: usize = 0;
        let mut right: usize = self.lines.len() - 1;
        // lines[left] starts at or before the instruction; every entry
        // after lines[right] starts after it.
        while left < right
            invariant
                self.well_formed(),
                left <= right < self.lines.len(),
                self.lines@[left as int].offset <= instruction_idx,
                forall|k: int| right < k < self.lines.len() ==> self.lines@[k].offset > instruction_idx,
            decreases right - left,
        {
            let mid = left + (right - left + 1) / 2;
            if self.lines[mid].offset <= instruction_idx {
                left = mid;
            } else {
                right = mid - 1;
            }
        }
        proof {
            lemma_line_at(self.lines@, instruction_idx as int, left as int);
        }
        self.lines[left].line
    }
}

/// In a line map that rises in offset, the entry that starts at or before
/// `index` while the next one starts after it is the one that `line_at`
/// finds.
pub proof fn lemma_line_at(lines: Seq<LineStart>, index: int, k: int)
    requires
        0 <= k < lines.len(),
        lines[k].offset <= index,
        forall|j: int| k < j < lines.len() ==> lines[j].offset > index,
    ensures
        line_at(lines, index) == lines[k].line,
    decreases lines.len(),
{
    if k < lines.len() - 1 {
        assert(lines.last().offset > index);
        lemma_line_at(lines.drop_last(), index, k);
    }
}

/// `line_at` gives 0 or the line of an entry.
proof fn lemma_line_at_is_entry(lines: Seq<LineStart>, index: int)
    ensures
        line_at(lines, index) == 0 || exists|k: int|
            0 <= k < lines.len() && line_at(lines, index) == (#[trigger] lines[k]).line,
    decreases lines.len(),
{
    if lines.len() > 0 && lines.last().offset > index {
        let shorter = lines.drop_last();
        lemma_line_at_is_entry(shorter, index);
        if line_at(shorter, index) != 0 {
            let k = choose|k: int|
                0 <= k < shorter.len() && line_at(shorter, index) == (#[trigger] shorter[k]).line;
            assert(lines[k] == shorter[k]);
        }
    } else if lines.len() > 0 {
        assert(lines[lines.len() - 1] == lines.last());
    }
}

/// Source lines never decrease along the code: in a well-formed chunk an
/// instruction's line is at least that of every instruction before it.
pub proof fn lemma_lines_never_decrease(chunk: ChunkModel, earlier: int, later: int)
    requires
        chunk.well_formed(),
        earlier <= later,
    ensures
        chunk.line_of(earlier) <= chunk.line_of(later),
{
    lemma_line_at_rises(chunk.lines, earlier, later);
}

proof fn lemma_line_at_rises(lines: Seq<LineStart>, earlier: int, later: int)
    requires
        forall|i: int, j: int|
            0 <= i < j < lines.len() ==> (#[trigger] lines[i]).line < (#[trigger] lines[j]).line,
        earlier <= later,
    ensures
        line_at(lines, earlier) <= line_at(lines, later),
    decreases lines.len(),
{
    if lines.len() > 0 {
        let shorter = lines.drop_last();
        assert forall|i: int, j: int| 0 <= i < j < shorter.len() implies (#[trigger] shorter[i]).line
            < (#[trigger] shorter[j]).line by {
            assert(shorter[i] == lines[i] && shorter[j] == lines[j]);
        }
        if lines.last().offset <= earlier {
        } else if lines.last().offset <= later {
            lemma_line_at_is_entry(shorter, earlier);
            if line_at(shorter, earlier) != 0 {
                let k = choose|k: int|
                    0 <= k < shorter.len() && line_at(shorter, earlier) == (
                    #[trigger] shorter[k]).line;
                assert(shorter[k] == lines[k]);
                assert(lines[k].line < lines[lines.len() - 1].line);
            }
        } else {
            lemma_line_at_rises(shorter, earlier, later);
        }
    }
}

/// Interning is idempotent: where interning `name` succeeds, interning it
/// again changes nothing and gives the same index, and that index holds
/// `name`.
pub proof fn lemma_add_name_twice(chunk: ChunkModel, name: Seq<char>)
    requires
        chunk.well_formed(),
        chunk.name_index(name) is Some,
    ensures
        chunk.add_name(name).name_index(name) == chunk.name_index(name),
        chunk.add_name(name).add_name(name) == chunk.add_name(name),
        chunk.add_name(name).names[chunk.name_index(name).unwrap() as int] == name,
{
    let once = chunk.add_name(name);
    if chunk.names.contains(name) {
        let k = chunk.names.index_of(name);
        assert(chunk.names[k] == name);
    } else {
        let last = chunk.names.len() as int;
        assert(once.names[last] == name);
        assert(once.names.contains(name));
        let k = once.names.index_of(name);
        assert(once.names[k] == name);
        if k != last {
            assert(chunk.names[k] == name);
            assert(chunk.names.contains(name));
        }
    }
}

/// Whether `after` is `before` after one operation of a chunk.
pub open spec fn one_operation(before: ChunkModel, after: ChunkModel) -> bool {
    ||| exists|instruction: Instruction, line: usize| after == before.write(instruction, line)
    ||| exists|value: Value| after == before.add_constant(value)
    ||| exists|name: Seq<char>| after == before.add_name(name)
    ||| exists|numeral: Seq<char>, line: usize| after == before.add_float(numeral, line)
    ||| exists|constant: u16, bits: u64| after == before.set_float(constant, bits)
}

/// Whether each of `chunks` but the first is the one before it after
/// one operation of a chunk.
pub open spec fn operations(chunks: Seq<ChunkModel>) -> bool {
    forall|i: int| 0 <= i < chunks.len() - 1 ==> one_operation(#[trigger] chunks[i], chunks[i + 1])
}

/// No operation of a chunk moves or changes a name that the pool holds.
pub proof fn lemma_names_stay(chunks: Seq<ChunkModel>, index: int)
    requires
        chunks.len() > 0,
        operations(chunks),
        0 <= index < chunks[0].names.len(),
    ensures
        index < chunks.last().names.len(),
        chunks.last().names[index] == chunks[0].names[index],
    decreases chunks.len(),
{
    if chunks.len() > 1 {
        let shorter = chunks.drop_last();
        assert forall|i: int| 0 <= i < shorter.len() - 1 implies one_operation(
            #[trigger] shorter[i],
            shorter[i + 1],
        ) by {
            assert(one_operation(chunks[i], chunks[i + 1]));
        }
        lemma_names_stay(shorter, index);
        let before = chunks[chunks.len() - 2];
        assert(before == shorter.last());
        assert(one_operation(before, chunks[chunks.len() - 1]));
    }
}

/// A name that was interned keeps its index: after any number of
/// operations on the chunk, the index that interning gave still holds
/// the name.
pub proof fn lemma_name_survives(start: ChunkModel, name: Seq<char>, chunks: Seq<ChunkModel>)
    requires
        start.well_formed(),
        start.name_index(name) is Some,
        chunks.len() > 0,
        chunks[0] == start.add_name(name),
        operations(chunks),
    ensures
        start.name_index(name).unwrap() < chunks.last().names.len(),
        chunks.last().names[start.name_index(name).unwrap() as int] == name,
{
    lemma_add_name_twice(start, name);
    let once = start.add_name(name);
    if start.names.contains(name) {
        let k = start.names.index_of(name);
        assert(start.names[k] == name);
    }
    lemma_names_stay(chunks, start.name_index(name).unwrap() as int);
}

} // verus!
