//! The compiler: one pass from tokens to a chunk.

use vstd::prelude::*;
use vstd::string::*;
use crate::chunk::{jump_target, operand_in_pool, Chunk, ChunkModel, Instruction};
use crate::compilation::{
    all_digits,
    compiled,
    decimal_value,
    literal,
    lookup,
    missing_label_text,
    numeral_end,
    operator_code,
    parse_unsigned,
    patched,
    referred,
    unparsable_text,
    JumpModel,
    LabelModel,
    LiteralModel,
    State,
};
use crate::error::{error_at, error_text, TACError, TACResult};
use crate::scanner::{is_alpha, is_digit, tokens_of, Scanner};
use crate::text::{chars_of, push_decimal, same_text};
use crate::token::{Token, TokenKind};
use crate::value::Value;

verus! {

/// The value of a numeric literal; for a float, its numeral.
pub enum Literal<'a> {
    U64(u64),
    I64(i64),
    F64(&'a str),
}

impl<'a> View for Literal<'a> {
    type V = LiteralModel;

    open spec fn view(&self) -> LiteralModel {
        match self {
            Literal::U64(v) => LiteralModel::U64(*v),
            Literal::I64(v) => LiteralModel::I64(*v),
            Literal::F64(numeral) => LiteralModel::F64(numeral@),
        }
    }
}

/// A sequence of digits writes at least what each of its prefixes writes.
proof fn lemma_decimal_value_grows(digits: Seq<char>, shorter: int)
    requires
        0 <= shorter <= digits.len(),
    ensures
        decimal_value(digits.subrange(0, shorter)) <= decimal_value(digits),
    decreases digits.len() - shorter,
{
    if shorter < digits.len() {
        let longer = digits.subrange(0, shorter + 1);
        assert(longer.drop_last() =~= digits.subrange(0, shorter));
        lemma_decimal_value_grows(digits, shorter + 1);
    } else {
        assert(digits.subrange(0, shorter) =~= digits);
    }
}

/// The number that the first `end` characters write, where they are one
/// or more digits and the number is at most `max`.
fn parse_digits(chars: &Vec<char>, end: usize, max: u64) -> (value: Option<u64>)
    requires
        end <= chars@.len(),
        max >= 9,
    ensures
        match value {
            Some(v) => parse_unsigned(chars@.subrange(0, end as int), max as nat) == Some(v as nat),
            None => parse_unsigned(chars@.subrange(0, end as int), max as nat) is None,
        },
{
    let ghost digits = chars@.subrange(0, end as int);
    if end == 0 {
        return None;
    }
    let mut value: u64 = 0;
    let mut i: usize = 0;
    assert(digits.subrange(0, 0) =~= Seq::<char>::empty());
    while i < end
        invariant
            i <= end <= chars@.len(),
            digits == chars@.subrange(0, end as int),
            all_digits(digits.subrange(0, i as int)),
            value == decimal_value(digits.subrange(0, i as int)),
            value <= max,
            max >= 9,
        decreases end - i,
    {
        let c = chars[i];
        if !('0' <= c && c <= '9') {
            assert(digits[i as int] == c);
            return None;
        }
        let d = (c as u64) - ('0' as u64);
        proof {
            let longer = digits.subrange(0, i + 1);
            assert(longer.drop_last() =~= digits.subrange(0, i as int));
            assert(longer.last() == c);
            assert(decimal_value(longer) == value * 10 + d);
            assert forall|k: int| 0 <= k < longer.len() implies is_digit(#[trigger] longer[k]) by {
                if k < i {
                    assert(digits.subrange(0, i as int)[k] == longer[k]);
                }
            }
            lemma_decimal_value_grows(digits, i + 1);
        }
        if value > (max - d) / 10 {
            return None;
        }
        value = value * 10 + d;
        i += 1;
    }
    assert(digits.subrange(0, end as int) =~= digits);
    Some(value)
}

/// The value of the numeric literal `lexeme`, or the message that
/// refuses it.
pub fn parse_literal<'a>(lexeme: &'a str) -> (result: Result<Literal<'a>, String>)
    ensures
        match result {
            Ok(value) => literal(lexeme@) == Ok::<LiteralModel, Seq<char>>(value@),
            Err(message) => literal(lexeme@) == Err::<LiteralModel, Seq<char>>(message@),
        },
{
    let chars = chars_of(lexeme);
    let mut split: usize = 0;
    let mut dotted = false;
    while split < chars.len() && !is_letter(chars[split])
        invariant
            split <= chars@.len(),
            chars@ == lexeme@,
            numeral_end(lexeme@, split as int) == numeral_end(lexeme@, 0),
            dotted == lexeme@.subrange(0, split as int).contains('.'),
        decreases chars@.len() - split,
    {
        proof {
            let shorter = lexeme@.subrange(0, split as int);
            let longer = lexeme@.subrange(0, split + 1);
            assert(longer.drop_last() =~= shorter);
            if shorter.contains('.') {
                let k = choose|k: int| 0 <= k < shorter.len() && shorter[k] == '.';
                assert(longer[k] == '.');
            }
            if longer.contains('.') && chars@[split as int] != '.' {
                let k = choose|k: int| 0 <= k < longer.len() && longer[k] == '.';
                assert(shorter[k] == '.');
            }
            if chars@[split as int] == '.' {
                assert(longer[split as int] == '.');
            }
        }
        if chars[split] == '.' {
            dotted = true;
        }
        split += 1;
    }
    let numeral = lexeme.substring_char(0, split);
    let suffix = lexeme.substring_char(split, chars.len());
    if same_text(suffix, "u64") {
        if dotted {
            Err(String::from_str("Cannot set u64 suffix to a float number"))
        } else {
            match parse_digits(&chars, split, u64::MAX) {
                Some(v) => Ok(Literal::U64(v)),
                None => Err(unparsable("u64")),
            }
        }
    } else if same_text(suffix, "i64") {
        if dotted {
            Err(String::from_str("Cannot set i64 suffix to a float number"))
        } else {
            match parse_digits(&chars, split, 0x7FFF_FFFF_FFFF_FFFF) {
                Some(v) => Ok(Literal::I64(v as i64)),
                None => Err(unparsable("i64")),
            }
        }
    } else if same_text(suffix, "f64") {
        Ok(Literal::F64(numeral))
    } else if same_text(suffix, "") {
        if dotted {
            Ok(Literal::F64(numeral))
        } else {
            match parse_digits(&chars, split, 0x7FFF_FFFF_FFFF_FFFF) {
                Some(v) => Ok(Literal::I64(v as i64)),
                None => Err(unparsable("i64")),
            }
        }
    } else {
        let mut message = String::from_str("Invalid suffix '");
        message.append(suffix);
        message.append("'");
        Err(message)
    }
}

/// The instructions of a binary operator: one, or one and a `Not`.
fn binary_operator(kind: TokenKind) -> (code: Option<(Instruction, bool)>)
    ensures
        code == operator_code(kind),
        code is Some ==> jump_target(code.unwrap().0) is None && operand_in_pool(code.unwrap().0, 0, 0),
{
    match kind {
        TokenKind::BangEqual => Some((Instruction::Equal, true)),
        TokenKind::EqualEqual => Some((Instruction::Equal, false)),
        TokenKind::Greater => Some((Instruction::Greater, false)),
        TokenKind::GreaterEqual => Some((Instruction::Less, true)),
        TokenKind::Less => Some((Instruction::Less, false)),
        TokenKind::LessEqual => Some((Instruction::Greater, true)),
        TokenKind::Minus => Some((Instruction::Subtract, false)),
        TokenKind::Plus => Some((Instruction::Add, false)),
        TokenKind::Star => Some((Instruction::Multiply, false)),
        TokenKind::Slash => Some((Instruction::Divide, false)),
        TokenKind::Percent => Some((Instruction::Modulo, false)),
        TokenKind::ShiftLeft => Some((Instruction::ShiftLeft, false)),
        TokenKind::ShiftRight => Some((Instruction::ShiftRight, false)),
        _ => None,
    }
}

fn is_letter(c: char) -> (letter: bool)
    ensures
        letter == is_alpha(c),
{
    ('a' <= c && c <= 'z') || ('A' <= c && c <= 'Z')
}

fn unparsable(written: &str) -> (message: String)
    ensures
        message@ == unparsable_text(written@),
{
    let mut message = String::from_str("It was not possible to parse number to type ");
    message.append(written);
    message
}

/// A label and the index of the instruction that it marks.
struct Label<'source> {
    name: &'source str,
    target: usize,
}

/// A jump that waits for its label.
struct Jump<'source> {
    label: &'source str,
    at: usize,
    line: usize,
}

impl<'source> View for Label<'source> {
    type V = LabelModel;

    closed spec fn view(&self) -> LabelModel {
        LabelModel { name: self.name@, target: self.target }
    }
}

impl<'source> View for Jump<'source> {
    type V = JumpModel;

    closed spec fn view(&self) -> JumpModel {
        JumpModel { label: self.label@, at: self.at, line: self.line }
    }
}

/// The texts of `lines`.
pub open spec fn texts(lines: Seq<String>) -> Seq<Seq<char>> {
    Seq::new(lines.len(), |i: int| lines[i]@)
}

/// A compiler at work on one source.
pub struct Compiler<'source> {
    scanner: Scanner<'source>,
    chunk: Chunk,
    had_error: bool,
    panic_mode: bool,
    current: Token<'source>,
    previous: Token<'source>,
    labels: Vec<Label<'source>>,
    pending: Vec<Jump<'source>>,
    reports: Vec<String>,
    /// The length of the code before this compilation.
    base: Ghost<nat>,
}

impl<'source> View for Compiler<'source> {
    type V = State;

    closed spec fn view(&self) -> State {
        self.state()
    }
}

/// Whether the jumps of `code` from `base` on still have the operand 0
/// that they were emitted with.
spec fn jumps_unset(code: Seq<Instruction>, base: nat) -> bool {
    forall|i: int|
        base <= i < code.len() && jump_target(#[trigger] code[i]) is Some ==> jump_target(code[i])
            == Some(0u16)
}

/// Whether each of `pending` stands for a jump of `code`, in the order
/// of the code.
spec fn jumps_placed(code: Seq<Instruction>, pending: Seq<JumpModel>) -> bool {
    &&& forall|i: int|
        0 <= i < pending.len() ==> (#[trigger] pending[i]).at < code.len() && jump_target(
            code[pending[i].at as int],
        ) is Some
    &&& forall|i: int, j: int|
        0 <= i < j < pending.len() ==> (#[trigger] pending[i]).at < (#[trigger] pending[j]).at
}

/// Whether every label marks an instruction of `code` or its end.
spec fn labels_placed(code: Seq<Instruction>, labels: Seq<LabelModel>) -> bool {
    forall|k: int| 0 <= k < labels.len() ==> (#[trigger] labels[k]).target <= code.len()
}

impl<'source> Compiler<'source> {
    /// The compiler's state in contracts.
    #[verifier::opaque]
    closed spec fn state(&self) -> State {
        State {
            rest: self.scanner@.tokens(),
            current: self.current@,
            previous: self.previous@,
            had_error: self.had_error,
            panic_mode: self.panic_mode,
            chunk: self.chunk@,
            labels: Seq::new(self.labels@.len(), |i: int| self.labels@[i]@),
            pending: Seq::new(self.pending@.len(), |i: int| self.pending@[i]@),
            reports: texts(self.reports@),
        }
    }

    /// The invariant of a compiler at work.
    #[verifier::opaque]
    closed spec fn well_formed(&self) -> bool {
        &&& self.scanner.well_formed()
        &&& self.chunk.well_formed()
        &&& self.previous.line <= self.current.line <= self.scanner@.line
        &&& (self.chunk@.last_line() <= self.previous.line || self.chunk@.last_line() <= 1)
        &&& self.base@ <= self.chunk@.code.len()
        &&& jumps_placed(self.chunk@.code, self@.pending)
        &&& jumps_listed(self.chunk@.code, self.base@, self@.pending)
        &&& jumps_unset(self.chunk@.code, self.base@)
        &&& labels_placed(self.chunk@.code, self@.labels)
    }

    /// Whether both tokens in hand were read from the source.
    closed spec fn lined(&self) -> bool {
        self@.previous.line >= 1 && self@.current.line >= 1
    }

    /// Whether the compiler has come from the state `before` to the
    /// state `after` by reading on in the same source.
    closed spec fn steps(&self, before: &Compiler<'source>, after: State) -> bool {
        &&& self.well_formed()
        &&& self.base == before.base
        &&& self@ == after
        &&& self@.measure() <= before@.measure()
        &&& before.lined() ==> self.lined()
        &&& before@.current.line >= 1 ==> self@.current.line >= 1
    }

    fn current_kind(&self) -> (kind: TokenKind)
        ensures
            kind == self@.current.kind,
    {
        reveal(Compiler::state);
        self.current.kind
    }

    fn current_token(&self) -> (token: Token<'source>)
        ensures
            token@ == self@.current,
    {
        reveal(Compiler::state);
        self.current
    }

    fn previous_token(&self) -> (token: Token<'source>)
        ensures
            token@ == self@.previous,
    {
        reveal(Compiler::state);
        self.previous
    }

    fn in_panic(&self) -> (panic: bool)
        ensures
            panic == self@.panic_mode,
    {
        reveal(Compiler::state);
        self.panic_mode
    }

    /// Writes the diagnostic for `message` at `token`, unless one was
    /// written for this statement.
    fn error_at(&mut self, token: Token<'source>, message: &str)
        requires
            old(self).well_formed(),
        ensures
            final(self).steps(old(self), old(self)@.report_at(token@, message@)),
    {
        reveal(State::report_at);
        reveal(Compiler::state);
        reveal(Compiler::well_formed);
        if self.panic_mode {
            return ;
        }
        self.reports.push(error_at(token, message));
        self.had_error = true;
        self.panic_mode = true;
        proof {
            assert(final(self)@.reports =~= old(self)@.reports.push(error_text(token@, message@)));
        }
    }

    fn error_at_current(&mut self, message: &str)
        requires
            old(self).well_formed(),
        ensures
            final(self).steps(old(self), old(self)@.report_at_current(message@)),
    {
        self.error_at(self.current_token(), message)
    }

    fn error(&mut self, message: &str)
        requires
            old(self).well_formed(),
        ensures
            final(self).steps(old(self), old(self)@.report(message@)),
    {
        self.error_at(self.previous_token(), message)
    }

    /// Moves on by one token, reporting the `Error` tokens on the way.
    fn advance(&mut self)
        requires
            old(self).well_formed(),
        ensures
            final(self).steps(old(self), old(self)@.advance()),
            final(self)@.previous == old(self)@.current,
            final(self)@.current.line >= 1,
            old(self)@.current.kind != TokenKind::Eof ==> final(self)@.measure() < old(self)@.measure(),
    {
        reveal(Compiler::state);
        reveal(Compiler::well_formed);
        reveal(State::advance);
        self.previous = self.current;
        let ghost goal = old(self)@.advance();
        loop
            invariant_except_break
                self@.pull() == goal,
                self@.rest.len() <= old(self)@.rest.len(),
            invariant
                self.well_formed(),
                self.base == old(self).base,
                self@.previous == old(self)@.current,
                old(self).well_formed(),
            ensures
                self.steps(old(self), goal),
                self@.current.line >= 1,
                old(self)@.current.kind != TokenKind::Eof ==> self@.measure() < old(self)@.measure(),
            decreases self@.rest.len(),
        {
            reveal(Compiler::state);
            reveal(Compiler::well_formed);
            reveal(State::pull);
            reveal(State::report_at);
            let ghost before = self@;
            proof {
                self.scanner.lemma_well_formed();
                self.scanner@.lemma_scan();
            }
            self.current = self.scanner.next_token();
            proof {
                self.scanner.lemma_well_formed();
                if self.current.kind != TokenKind::Eof {
                    assert(before.rest.skip(1) =~= self@.rest);
                }
            }
            if self.current.kind != TokenKind::Error {
                break ;
            }
            self.error_at_current(self.current.lexeme);
        }
    }

    /// Appends `instruction`, on the line of the previous token.
    fn emit_instruction(&mut self, instruction: Instruction)
        requires
            old(self).well_formed(),
            old(self).lined(),
            operand_in_pool(
                instruction,
                old(self)@.chunk.constants.len(),
                old(self)@.chunk.names.len(),
            ),
            jump_target(instruction) is None,
        ensures
            final(self).steps(old(self), old(self)@.emit(instruction)),
    {
        reveal(State::emit);
        reveal(Compiler::state);
        reveal(Compiler::well_formed);
        self.chunk.write(instruction, self.previous.line);
    }

    /// Reads a token of `kind`, or reports `message` at the current one.
    fn consume(&mut self, kind: TokenKind, message: &str)
        requires
            old(self).well_formed(),
            old(self).lined(),
        ensures
            final(self).steps(old(self), old(self)@.consume(kind, message@)),
    {
        reveal(State::consume);
        if self.match_advance(kind) {
            return ;
        }
        self.error_at_current(message);
    }

    /// Reads the current token if it is of `kind`.
    fn match_advance(&mut self, kind: TokenKind) -> (matched: bool)
        requires
            old(self).well_formed(),
        ensures
            matched == (old(self)@.current.kind == kind),
            final(self).steps(
                old(self),
                if matched {
                    old(self)@.advance()
                } else {
                    old(self)@
                },
            ),
            matched ==> final(self)@.previous == old(self)@.current && final(self)@.current.line >= 1,
            matched && kind != TokenKind::Eof ==> final(self)@.measure() < old(self)@.measure(),
    {
        if self.check(kind) {
            self.advance();
            return true;
        }
        false
    }

    fn check(&self, kind: TokenKind) -> (same: bool)
        ensures
            same == (self@.current.kind == kind),
    {
        self.current_kind() == kind
    }

    /// Adds `value` to the constant pool and loads it.
    fn make_constant(&mut self, value: Value)
        requires
            old(self).well_formed(),
            old(self).lined(),
        ensures
            final(self).steps(old(self), old(self)@.make_constant(value)),
    {
        reveal(State::make_constant);
        let added = self.add_constant(value);
        match added {
            Ok(index) => self.emit_instruction(Instruction::Constant(index)),
            Err(message) => self.error(message),
        }
    }

    /// Adds `value` to the constant pool.
    fn add_constant(&mut self, value: Value) -> (result: Result<u16, &'static str>)
        requires
            old(self).well_formed(),
        ensures
            match result {
                Ok(index) => old(self)@.chunk.has_room_for_constant() && index == old(
                    self,
                )@.chunk.constants.len() && final(self).steps(
                    old(self),
                    State { chunk: old(self)@.chunk.add_constant(value), ..old(self)@ },
                ),
                Err(message) => !old(self)@.chunk.has_room_for_constant() && final(self).steps(
                    old(self),
                    old(self)@,
                ) && message@ == "Could not add constant, reached limit of u16 max size"@,
            },
    {
        reveal(Compiler::state);
        reveal(Compiler::well_formed);
        self.chunk.add_constant(value)
    }

    /// Adds a float constant for `numeral` and loads it.
    fn make_float(&mut self, numeral: &str)
        requires
            old(self).well_formed(),
            old(self).lined(),
        ensures
            final(self).steps(old(self), old(self)@.make_float(numeral@)),
    {
        reveal(State::make_float);
        let added = self.add_float(numeral);
        match added {
            Ok(index) => self.emit_instruction(Instruction::Constant(index)),
            Err(message) => self.error(message),
        }
    }

    /// Adds a float constant for `numeral`.
    fn add_float(&mut self, numeral: &str) -> (result: Result<u16, &'static str>)
        requires
            old(self).well_formed(),
        ensures
            match result {
                Ok(index) => old(self)@.chunk.has_room_for_constant() && index == old(
                    self,
                )@.chunk.constants.len() && final(self).steps(
                    old(self),
                    State {
                        chunk: old(self)@.chunk.add_float(numeral@, old(self)@.previous.line),
                        ..old(self)@
                    },
                ),
                Err(message) => !old(self)@.chunk.has_room_for_constant() && final(self).steps(
                    old(self),
                    old(self)@,
                ) && message@ == "Could not add constant, reached limit of u16 max size"@,
            },
    {
        reveal(Compiler::state);
        reveal(Compiler::well_formed);
        self.chunk.add_float(numeral, self.previous.line)
    }

    /// Compiles the numeric literal in `previous`.
    fn number(&mut self)
        requires
            old(self).well_formed(),
            old(self).lined(),
        ensures
            final(self).steps(old(self), old(self)@.number()),
    {
        reveal(State::number);
        match parse_literal(self.previous_token().lexeme) {
            Ok(Literal::U64(v)) => self.make_constant(Value::U64(v)),
            Ok(Literal::I64(v)) => self.make_constant(Value::I64(v)),
            Ok(Literal::F64(numeral)) => self.make_float(numeral),
            Err(message) => self.error(message.as_str()),
        }
    }

    /// Compiles the character literal in `previous`.
    fn character(&mut self)
        requires
            old(self).well_formed(),
            old(self).lined(),
        ensures
            final(self).steps(old(self), old(self)@.character()),
    {
        reveal(State::character);
        let lexeme = self.previous_token().lexeme;
        if lexeme.unicode_len() > 1 {
            self.make_constant(Value::Char(lexeme.get_char(1)))
        } else {
            self.error("Invalid token of kind Char")
        }
    }

    /// Interns the name in `previous`.
    fn add_name(&mut self) -> (result: Option<u16>)
        requires
            old(self).well_formed(),
        ensures
            result == old(self)@.chunk.name_index(old(self)@.previous.lexeme),
            final(self).steps(
                old(self),
                State {
                    chunk: old(self)@.chunk.add_name(old(self)@.previous.lexeme),
                    ..old(self)@
                },
            ),
            result is Some ==> result.unwrap() < final(self)@.chunk.names.len(),
            result is None ==> final(self)@ == old(self)@,
    {
        reveal(Compiler::state);
        reveal(Compiler::well_formed);
        match self.chunk.add_name(self.previous.lexeme) {
            Ok(index) => Some(index),
            Err(_) => None,
        }
    }

    /// Interns the name in `previous` and loads the variable, or its
    /// address where `create` is set. Says whether the name found room.
    fn variable(&mut self, create: bool) -> (found: bool)
        requires
            old(self).well_formed(),
            old(self).lined(),
        ensures
            final(self).steps(old(self), old(self)@.variable(create)),
            found == (old(self)@.chunk.name_index(old(self)@.previous.lexeme) is Some),
    {
        reveal(State::variable);
        match self.add_name() {
            Some(index) => {
                if create {
                    self.emit_instruction(Instruction::GetOrCreateVar(index));
                } else {
                    self.emit_instruction(Instruction::GetVar(index));
                }
                true
            },
            None => {
                self.error("The program uses too many variables (65535+)");
                false
            },
        }
    }

    /// Reads one operand and loads it.
    fn operand(&mut self)
        requires
            old(self).well_formed(),
            old(self).lined(),
        ensures
            final(self).steps(old(self), old(self)@.operand()),
    {
        reveal(State::operand);
        self.advance();
        match self.previous_token().kind {
            TokenKind::Identifier => {
                self.variable(false);
            },
            TokenKind::True => self.emit_instruction(Instruction::True),
            TokenKind::False => self.emit_instruction(Instruction::False),
            TokenKind::Char => self.character(),
            TokenKind::Number => self.number(),
            TokenKind::String => self.error("String literals are only allowed in the data section"),
            _ => self.error("Invalid operand, expected literal value or variable name"),
        }
    }

    /// Compiles a unary expression, where one is ahead, and says whether
    /// one was.
    fn unary_expression(&mut self) -> (unary: bool)
        requires
            old(self).well_formed(),
            old(self).lined(),
        ensures
            unary == old(self)@.starts_unary(),
            final(self).steps(
                old(self),
                if unary {
                    old(self)@.unary_expression()
                } else {
                    old(self)@
                },
            ),
    {
        reveal(State::unary_expression);
        match self.current_kind() {
            TokenKind::Bang => {
                self.advance();
                self.operand();
                self.emit_instruction(Instruction::Not);
                true
            },
            TokenKind::Minus => {
                self.advance();
                self.operand();
                self.emit_instruction(Instruction::Negate);
                true
            },
            TokenKind::Star => {
                self.error_at_current("Dereference expressions are not supported yet");
                true
            },
            TokenKind::Ampersand => {
                self.error_at_current("Reference expressions are not supported yet");
                true
            },
            _ => false,
        }
    }

    /// Compiles the second operand of a binary operator and the
    /// operator itself, where one is ahead.
    fn binary_rest(&mut self)
        requires
            old(self).well_formed(),
            old(self).lined(),
        ensures
            final(self).steps(
                old(self),
                match operator_code(old(self)@.current.kind) {
                    Some((instruction, negated)) => {
                        let both = old(self)@.advance().operand().emit(instruction);
                        if negated {
                            both.emit(Instruction::Not)
                        } else {
                            both
                        }
                    },
                    None => old(self)@,
                },
            ),
    {
        match binary_operator(self.current_kind()) {
            Some((instruction, negated)) => {
                self.advance();
                self.operand();
                self.emit_instruction(instruction);
                if negated {
                    self.emit_instruction(Instruction::Not);
                }
            },
            None => {},
        }
    }

    /// Compiles an expression.
    fn expression(&mut self)
        requires
            old(self).well_formed(),
            old(self).lined(),
        ensures
            final(self).steps(old(self), old(self)@.expression()),
    {
        reveal(State::expression);
        if self.unary_expression() {
            return ;
        }
        if self.check(TokenKind::Call) {
            self.error_at_current("Call expressions are not supported yet");
            return ;
        }
        if self.check(TokenKind::Scan) {
            self.error_at_current("Scan expressions are not supported yet");
            return ;
        }
        self.operand();
        self.binary_rest();
    }

    /// `print e` and `println e`.
    fn print_statement(&mut self)
        requires
            old(self).well_formed(),
            old(self).lined(),
        ensures
            final(self).steps(old(self), old(self)@.print_statement()),
    {
        reveal(State::print_statement);
        let nl = self.previous_token().kind == TokenKind::PrintLn;
        self.expression();
        self.emit_instruction(Instruction::Print(nl))
    }

    /// Notes that the jump about to be emitted waits for the label in
    /// `previous`, and emits it.
    fn jump(&mut self, conditional: bool)
        requires
            old(self).well_formed(),
            old(self).lined(),
        ensures
            final(self).steps(old(self), old(self)@.jump(conditional)),
    {
        reveal(State::jump);
        reveal(State::emit);
        reveal(Compiler::state);
        reveal(Compiler::well_formed);
        let at = self.chunk.code.len();
        self.pending.push(Jump { label: self.previous.lexeme, at, line: self.previous.line });
        self.chunk.write(
            if conditional {
                Instruction::JumpIf(0)
            } else {
                Instruction::Goto(0)
            },
            self.previous.line,
        );
        proof {
            let pending = final(self)@.pending;
            let code = final(self)@.chunk.code;
            assert(pending =~= old(self)@.jump(conditional).pending);
            assert forall|j: int|
                self.base@ <= j < code.len() && jump_target(#[trigger] code[j]) is Some implies exists|
                k: int,
            | 0 <= k < pending.len() && (#[trigger] pending[k]).at == j by {
                if j < at {
                    assert(code[j] == old(self)@.chunk.code[j]);
                    let k = choose|k: int|
                        0 <= k < old(self)@.pending.len() && (#[trigger] old(self)@.pending[k]).at
                            == j;
                    assert(pending[k].at == j);
                } else {
                    assert(pending[pending.len() - 1].at == j);
                }
            }
        }
    }

    /// `goto L`.
    fn goto_statement(&mut self)
        requires
            old(self).well_formed(),
            old(self).lined(),
        ensures
            final(self).steps(old(self), old(self)@.goto_statement()),
    {
        reveal(State::goto_statement);
        self.consume(TokenKind::Identifier, "Missing label for 'goto' statement");
        self.jump(false);
    }

    /// `if e goto L` and `ifFalse e goto L`.
    fn if_statement(&mut self)
        requires
            old(self).well_formed(),
            old(self).lined(),
        ensures
            final(self).steps(old(self), old(self)@.if_statement()),
    {
        reveal(State::if_statement);
        let negate = self.previous_token().kind == TokenKind::IfFalse;
        let name = if negate {
            "ifFalse"
        } else {
            "if"
        };
        self.expression();
        let mut no_goto = String::from_str("Missing 'goto' keyword after ");
        no_goto.append(name);
        no_goto.append(" statement");
        self.consume(TokenKind::Goto, no_goto.as_str());
        let mut no_label = String::from_str("Missing label after ");
        no_label.append(name);
        no_label.append(" statement");
        self.consume(TokenKind::Identifier, no_label.as_str());
        if negate {
            self.emit_instruction(Instruction::Not);
        }
        self.jump(true);
    }

    /// The rest of an assignment behind its target: `= e`.
    fn assigned(&mut self)
        requires
            old(self).well_formed(),
            old(self).lined(),
        ensures
            final(self).steps(old(self), old(self)@.assigned()),
    {
        reveal(State::assigned);
        self.consume(TokenKind::Equal, "Assignment statement expected, but no '=' was found");
        self.expression();
        self.emit_instruction(Instruction::Assign);
    }

    /// `x = e`, `x[] = e` and `*x = e`.
    fn assignment(&mut self)
        requires
            old(self).well_formed(),
            old(self).lined(),
        ensures
            final(self).steps(old(self), old(self)@.assignment()),
    {
        reveal(State::assignment);
        let dereference = self.previous_token().kind == TokenKind::Star;
        if dereference {
            self.consume(TokenKind::Identifier, "A variable is required to be dereferenced");
        }
        if !self.variable(true) {
            return ;
        }
        if self.match_advance(TokenKind::LeftBracket) {
            if dereference {
                self.error(
                    "Dereferenced variables can not be accessed via array indexes in the same statement",
                );
                return ;
            }
            self.consume(
                TokenKind::RightBracket,
                "Missing ']': Array accesses must be enclosed by brackets",
            );
        }
        self.assigned();
    }

    /// The target of the label `name`, where it is declared.
    fn find_label(&self, name: &str) -> (target: Option<usize>)
        ensures
            target == lookup(self@.labels, name@, 0),
    {
        reveal(Compiler::state);
        let mut i: usize = 0;
        while i < self.labels.len()
            invariant
                i <= self.labels@.len(),
                lookup(self@.labels, name@, i as int) == lookup(self@.labels, name@, 0),
            decreases self.labels@.len() - i,
        {
            reveal(Compiler::state);
            if same_text(self.labels[i].name, name) {
                return Some(self.labels[i].target);
            }
            i += 1;
        }
        None
    }

    /// Declares the label `name` for the next instruction.
    fn declare(&mut self, name: &'source str)
        requires
            old(self).well_formed(),
        ensures
            final(self).steps(
                old(self),
                State {
                    labels: old(self)@.labels.push(
                        LabelModel { name: name@, target: old(self)@.chunk.code.len() as usize },
                    ),
                    ..old(self)@
                },
            ),
    {
        reveal(Compiler::state);
        reveal(Compiler::well_formed);
        self.labels.push(Label { name, target: self.chunk.code.len() });
        proof {
            assert(final(self)@.labels =~= old(self)@.labels.push(
                LabelModel { name: name@, target: old(self)@.chunk.code.len() as usize },
            ));
        }
    }

    /// A label declaration or an assignment, behind an identifier.
    fn label_or_assignment(&mut self)
        requires
            old(self).well_formed(),
            old(self).lined(),
        ensures
            final(self).steps(old(self), old(self)@.label_or_assignment()),
    {
        reveal(State::label_or_assignment);
        let identifier = self.previous_token();
        if self.match_advance(TokenKind::Colon) {
            if self.find_label(identifier.lexeme).is_some() {
                self.error_at(identifier, "Redefinition of labels is not allowed");
            } else {
                self.declare(identifier.lexeme);
            }
        } else {
            self.assignment();
        }
    }

    /// What has to follow a statement: the end of the line.
    fn line_end(&mut self)
        requires
            old(self).well_formed(),
        ensures
            final(self).steps(old(self), old(self)@.line_end()),
    {
        reveal(State::line_end);
        let kind = self.current_kind();
        if kind == TokenKind::NewLine || kind == TokenKind::Eof {
        } else if binary_operator(kind).is_some() || kind == TokenKind::Bang || kind
            == TokenKind::Ampersand {
            self.error_at_current("Three-address code programs support at most binary expressions");
        } else {
            self.error_at_current("There must be at most one statement per line");
        }
    }

    /// Compiles the statement whose first token is in `previous`, up to
    /// the check of what follows it.
    fn dispatch(&mut self) -> (blank: bool)
        requires
            old(self).well_formed(),
            old(self).lined(),
        ensures
            blank == (old(self)@.previous.kind == TokenKind::NewLine || old(self)@.previous.kind
                == TokenKind::Eof),
            final(self).steps(
                old(self),
                match old(self)@.previous.kind {
                    TokenKind::Print => old(self)@.print_statement(),
                    TokenKind::PrintLn => old(self)@.print_statement(),
                    TokenKind::If => old(self)@.if_statement(),
                    TokenKind::IfFalse => old(self)@.if_statement(),
                    TokenKind::Goto => old(self)@.goto_statement(),
                    TokenKind::Halt => old(self)@.emit(Instruction::Halt),
                    TokenKind::Star => old(self)@.assignment(),
                    TokenKind::Identifier => old(self)@.label_or_assignment(),
                    TokenKind::NewLine => old(self)@,
                    TokenKind::Eof => old(self)@,
                    TokenKind::Equal => old(self)@.report(
                        "Assignments must have a variable on the left side"@,
                    ),
                    TokenKind::Scan => old(self)@.report(
                        "Return value of scan must be assigned to a variable"@,
                    ),
                    kind => old(self)@.report("Invalid statement with token "@ + kind.name_spec()),
                },
            ),
    {
        match self.previous_token().kind {
            TokenKind::Print => self.print_statement(),
            TokenKind::PrintLn => self.print_statement(),
            TokenKind::If => self.if_statement(),
            TokenKind::IfFalse => self.if_statement(),
            TokenKind::Goto => self.goto_statement(),
            TokenKind::Halt => self.emit_instruction(Instruction::Halt),
            TokenKind::Star => self.assignment(),
            TokenKind::Identifier => self.label_or_assignment(),
            TokenKind::NewLine => {
                return true;
            },
            TokenKind::Eof => {
                return true;
            },
            TokenKind::Equal => self.error("Assignments must have a variable on the left side"),
            TokenKind::Scan => self.error("Return value of scan must be assigned to a variable"),
            kind => {
                let mut message = String::from_str("Invalid statement with token ");
                message.append(kind.name());
                self.error(message.as_str());
            },
        }
        false
    }

    /// Compiles one statement.
    fn statement(&mut self)
        requires
            old(self).well_formed(),
            old(self)@.current.line >= 1,
        ensures
            final(self).steps(old(self), old(self)@.statement()),
            old(self)@.current.kind != TokenKind::Eof ==> final(self)@.measure() < old(self)@.measure(),
    {
        reveal(State::statement);
        self.advance();
        if !self.dispatch() {
            self.line_end();
        }
    }

    /// Writes diagnostics again.
    fn calm(&mut self)
        requires
            old(self).well_formed(),
        ensures
            final(self).steps(old(self), State { panic_mode: false, ..old(self)@ }),
    {
        reveal(Compiler::state);
        reveal(Compiler::well_formed);
        self.panic_mode = false;
    }

    /// Recovers from an error: reads on to the start of the next line,
    /// from where diagnostics are written again.
    fn synchronize(&mut self)
        requires
            old(self).well_formed(),
        ensures
            final(self).steps(old(self), old(self)@.synchronize()),
    {
        reveal(State::synchronize);
        self.calm();
        let ghost goal = old(self)@.synchronize();
        loop
            invariant_except_break
                self@.skip_line() == goal,
            invariant
                self.well_formed(),
                self.base == old(self).base,
                self@.measure() <= old(self)@.measure(),
                old(self).lined() ==> self.lined(),
                old(self)@.current.line >= 1 ==> self@.current.line >= 1,
            ensures
                self@ == goal,
            decreases self@.measure(),
        {
            reveal(State::skip_line);
            if self.current_kind() == TokenKind::Eof || self.previous_token().kind
                == TokenKind::NewLine {
                break ;
            }
            self.advance();
        }
    }

    /// Whether one of the first `upto` jumps refers to `label`.
    fn referred_before(&self, label: &str, upto: usize) -> (found: bool)
        requires
            upto <= self@.pending.len(),
        ensures
            found == referred(self@.pending, label@, upto as int),
    {
        reveal(Compiler::state);
        let mut j: usize = 0;
        while j < upto
            invariant
                j <= upto <= self.pending@.len(),
                forall|k: int| 0 <= k < j ==> (#[trigger] self@.pending[k]).label != label@,
            decreases upto - j,
        {
            reveal(Compiler::state);
            if same_text(self.pending[j].label, label) {
                assert(self@.pending[j as int].label == label@);
                return true;
            }
            j += 1;
        }
        false
    }

    /// Sets the operand of the jump at `idx`.
    fn patch_jump(&mut self, idx: usize, val: u16)
        requires
            old(self).chunk.well_formed(),
            idx < old(self).chunk@.code.len(),
        ensures
            final(self).chunk.well_formed(),
            final(self).chunk@ == (ChunkModel {
                code: patched(old(self).chunk@.code, idx as int, val),
                ..old(self).chunk@
            }),
            final(self).scanner == old(self).scanner,
            final(self).current == old(self).current,
            final(self).previous == old(self).previous,
            final(self).had_error == old(self).had_error,
            final(self).panic_mode == old(self).panic_mode,
            final(self).labels == old(self).labels,
            final(self).pending == old(self).pending,
            final(self).reports == old(self).reports,
            final(self).base == old(self).base,
    {
        match self.chunk.code[idx] {
            Instruction::Goto(_) => {
                self.chunk.code.set(idx, Instruction::Goto(val));
            },
            Instruction::JumpIf(_) => {
                self.chunk.code.set(idx, Instruction::JumpIf(val));
            },
            _ => {},
        }
        proof {
            assert(final(self).chunk@.names =~= old(self).chunk@.names);
            assert(final(self).chunk@.floats =~= old(self).chunk@.floats);
            assert(final(self).chunk@.code =~= patched(old(self).chunk@.code, idx as int, val));
        }
    }

    /// Gives every jump whose label is declared its target, and reports
    /// every label that is referred to and never declared.
    fn update_pending_labels(&mut self)
        requires
            old(self).well_formed(),
        ensures
            final(self)@ == old(self)@.resolve(0),
            final(self).base == old(self).base,
            final(self).chunk.well_formed(),
            final(self)@.chunk.code.len() == old(self)@.chunk.code.len(),
            forall|j: int|
                0 <= j < final(self)@.chunk.code.len() && jump_target(
                    #[trigger] old(self)@.chunk.code[j],
                ) is None ==> final(self)@.chunk.code[j] == old(self)@.chunk.code[j],
            jumps_resolved(final(self)@.chunk.code, final(self)@.pending, final(self)@.labels),
            jumps_listed(final(self)@.chunk.code, final(self).base@, final(self)@.pending),
            !final(self)@.had_error ==> labels_declared(final(self)@.pending, final(self)@.labels),
            jumps_bounded(final(self)@.chunk.code, final(self).base@, final(self)@.labels),
            labels_placed(final(self)@.chunk.code, final(self)@.labels),
    {
        reveal(Compiler::state);
        reveal(Compiler::well_formed);
        let ghost goal = old(self)@.resolve(0);
        let mut i: usize = 0;
        while i < self.pending.len()
            invariant
                i <= self.pending@.len(),
                self.chunk.well_formed(),
                self.base == old(self).base,
                self@.chunk.code.len() == old(self)@.chunk.code.len(),
                forall|j: int|
                    0 <= j < self@.chunk.code.len() && jump_target(
                        #[trigger] old(self)@.chunk.code[j],
                    ) is None ==> self@.chunk.code[j] == old(self)@.chunk.code[j],
                jumps_placed(self@.chunk.code, self@.pending),
                jumps_listed(self@.chunk.code, self.base@, self@.pending),
                labels_placed(self@.chunk.code, self@.labels),
                jumps_bounded(self@.chunk.code, self.base@, self@.labels),
                forall|k: int|
                    0 <= k < i && lookup(self@.labels, (#[trigger] self@.pending[k]).label, 0)
                        is None ==> self@.had_error,
                forall|k: int|
                    0 <= k < i ==> match lookup(self@.labels, (#[trigger] self@.pending[k]).label, 0) {
                        Some(target) => jump_target(self@.chunk.code[self@.pending[k].at as int])
                            == Some(target as u16),
                        None => true,
                    },
                self@.resolve(i as int) == goal,
            decreases self.pending@.len() - i,
        {
            reveal(Compiler::state);
            reveal(State::resolve);
            let ghost before = self@;
            let label = self.pending[i].label;
            let at = self.pending[i].at;
            let line = self.pending[i].line;
            assert(before.pending[i as int] == (JumpModel { label: label@, at, line }));
            match self.find_label(label) {
                Some(target) => {
                    proof {
                        lemma_lookup_found(before.labels, label@, 0);
                    }
                    self.patch_jump(at, short(target));
                    proof {
                        let code = self@.chunk.code;
                        assert forall|k: int| 0 <= k < i + 1 implies match lookup(
                            self@.labels,
                            (#[trigger] self@.pending[k]).label,
                            0,
                        ) {
                            Some(target) => jump_target(code[self@.pending[k].at as int]) == Some(
                                target as u16,
                            ),
                            None => true,
                        } by {
                            if k < i {
                                assert(before.pending[k].at < before.pending[i as int].at);
                            }
                        }
                        assert forall|j: int|
                            self.base@ <= j < code.len() && jump_target(
                                #[trigger] code[j],
                            ) is Some implies exists|k: int|
                            0 <= k < self@.pending.len() && (#[trigger] self@.pending[k]).at
                                == j by {
                            assert(jump_target(before.chunk.code[j]) is Some);
                        }
                        assert forall|j: int|
                            self.base@ <= j < code.len() && jump_target(
                                #[trigger] code[j],
                            ) is Some implies jump_target(code[j]).unwrap() == 0 || exists|k: int|
                            0 <= k < self@.labels.len() && jump_target(code[j]).unwrap() <= (
                            #[trigger] self@.labels[k]).target by {
                            if j != at {
                                assert(code[j] == before.chunk.code[j]);
                            }
                        }
                    }
                },
                None => {
                    if !self.referred_before(label, i) {
                        let mut message = String::from_str("Missing label '");
                        message.append(label);
                        message.append("', first used in line ");
                        push_decimal(&mut message, line as u64);
                        let report = error_at(self.previous, message.as_str());
                        self.reports.push(report);
                        self.had_error = true;
                        proof {
                            assert(self@.reports =~= before.reports.push(
                                error_text(before.previous, missing_label_text(label@, line)),
                            ));
                        }
                    }
                },
            }
            i += 1;
        }
        proof {
            reveal(State::resolve);
        }
    }

    /// Ends the program with `Halt`, unless it ends with one, and
    /// resolves the jumps.
    fn end(&mut self)
        requires
            old(self).well_formed(),
            old(self).lined(),
        ensures
            final(self)@ == old(self)@.end(),
            final(self).base == old(self).base,
            final(self).chunk.well_formed(),
            final(self)@.chunk.code.len() > 0,
            final(self)@.chunk.code.last() == Instruction::Halt,
            jumps_resolved(final(self)@.chunk.code, final(self)@.pending, final(self)@.labels),
            jumps_listed(final(self)@.chunk.code, final(self).base@, final(self)@.pending),
            !final(self)@.had_error ==> labels_declared(final(self)@.pending, final(self)@.labels),
            jumps_bounded(final(self)@.chunk.code, final(self).base@, final(self)@.labels),
            labels_placed(final(self)@.chunk.code, final(self)@.labels),
    {
        reveal(State::end);
        if !self.ends_with_halt() {
            self.emit_instruction(Instruction::Halt);
            proof {
                reveal(State::emit);
            }
        }
        let ghost code = self@.chunk.code;
        assert(code[code.len() - 1] == Instruction::Halt);
        self.update_pending_labels();
        assert(self@.chunk.code[code.len() - 1] == code[code.len() - 1]);
    }

    fn ends_with_halt(&self) -> (halted: bool)
        ensures
            halted == (self@.chunk.code.len() > 0 && self@.chunk.code.last() == Instruction::Halt),
    {
        reveal(Compiler::state);
        let n = self.chunk.code.len();
        n > 0 && self.chunk.code[n - 1] == Instruction::Halt
    }

    /// Compiles `source` into `chunk` and leaves the diagnostics of the
    /// compilation in `reports`, one line each. Fails where a diagnostic
    /// was written.
    ///
    /// The float constants of the chunk are zero after this: their
    /// numerals stand in `chunk.floats`, for the host to read.
    pub fn compile(source: &'source str, chunk: &mut Chunk, reports: &mut Vec<String>) -> (result:
        TACResult<()>)
        requires
            old(chunk).well_formed(),
            old(chunk)@.last_line() <= 1,
        ensures
            final(chunk)@ == compiled(tokens_of(source@), old(chunk)@).chunk,
            texts(final(reports)@) == compiled(tokens_of(source@), old(chunk)@).reports,
            result == if compiled(tokens_of(source@), old(chunk)@).had_error {
                Err::<(), TACError>(TACError::CompileError)
            } else {
                Ok::<(), TACError>(())
            },
            final(chunk).well_formed(),
            final(chunk)@.code.len() > 0,
            final(chunk)@.code.last() == Instruction::Halt,
            jumps_resolved(
                final(chunk)@.code,
                compiled(tokens_of(source@), old(chunk)@).pending,
                compiled(tokens_of(source@), old(chunk)@).labels,
            ),
            jumps_land(
                final(chunk)@.code,
                old(chunk)@.code.len(),
                compiled(tokens_of(source@), old(chunk)@).pending,
                compiled(tokens_of(source@), old(chunk)@).labels,
            ),
            result is Ok ==> labels_declared(
                compiled(tokens_of(source@), old(chunk)@).pending,
                compiled(tokens_of(source@), old(chunk)@).labels,
            ),
            jumps_inside(final(chunk)@.code, old(chunk)@.code.len(), final(chunk)@.code.len() + 1),
            labels_inside(
                final(chunk)@.code,
                compiled(tokens_of(source@), old(chunk)@).labels,
            ) ==> jumps_inside(
                final(chunk)@.code,
                old(chunk)@.code.len(),
                final(chunk)@.code.len(),
            ),
    {
        let mut taken = Chunk::new();
        std::mem::swap(chunk, &mut taken);
        let ghost base = taken@.code.len();
        let mut compiler = Compiler {
            scanner: Scanner::new(source),
            chunk: taken,
            had_error: false,
            panic_mode: false,
            current: Token::synthetic(""),
            previous: Token::synthetic(""),
            labels: Vec::new(),
            pending: Vec::new(),
            reports: Vec::new(),
            base: Ghost(base),
        };
        proof {
            reveal(Compiler::state);
            reveal(Compiler::well_formed);
            compiler.scanner.lemma_well_formed();
            assert(compiler@.labels =~= Seq::empty());
            assert(compiler@.pending =~= Seq::empty());
            assert(compiler@.reports =~= Seq::empty());
            assert(compiler@ == State::initial(tokens_of(source@), old(chunk)@));
        }
        compiler.advance();
        let ghost goal = State::initial(tokens_of(source@), old(chunk)@).advance().statements();
        loop
            invariant_except_break
                compiler@.statements() == goal,
            invariant
                compiler.well_formed(),
                compiler.base@ == base,
                compiler@.current.line >= 1,
            ensures
                compiler@ == goal,
                compiler.lined(),
            decreases compiler@.measure(),
        {
            reveal(State::statements);
            if compiler.match_advance(TokenKind::Eof) {
                break ;
            }
            compiler.statement();
            if compiler.in_panic() {
                compiler.synchronize();
            }
        }
        compiler.end();
        proof {
            reveal(Compiler::state);
            lemma_jumps_inside(compiler@.chunk.code, base, compiler@.labels);
            lemma_jumps_land(compiler@.chunk.code, base, compiler@.pending, compiler@.labels);
        }
        let failed = compiler.had_error;
        *chunk = compiler.chunk;
        *reports = compiler.reports;
        if failed {
            Err(TACError::CompileError)
        } else {
            Ok(())
        }
    }
}

/// The operand that stands for the target `target`: its low 16 bits.
fn short(target: usize) -> (operand: u16)
    ensures
        operand == target as u16,
        operand <= target,
{
    if target <= 0xFFFF {
        target as u16
    } else {
        let low = target % 0x1_0000;
        assert(low == target as u16) by (bit_vector)
            requires
                low == target % 0x1_0000,
        ;
        low as u16
    }
}

/// A label that is found is one of the labels.
proof fn lemma_lookup_found(labels: Seq<LabelModel>, name: Seq<char>, from: int)
    requires
        0 <= from,
        lookup(labels, name, from) is Some,
    ensures
        exists|k: int|
            from <= k < labels.len() && (#[trigger] labels[k]).target == lookup(
                labels,
                name,
                from,
            ).unwrap(),
    decreases labels.len() - from,
{
    if from < labels.len() && labels[from].name != name {
        lemma_lookup_found(labels, name, from + 1);
    }
}

/// Whether every jump that waits for a declared label has the label's
/// target, cut to 16 bits, as its operand.
pub open spec fn jumps_resolved(
    code: Seq<Instruction>,
    pending: Seq<JumpModel>,
    labels: Seq<LabelModel>,
) -> bool {
    forall|k: int|
        0 <= k < pending.len() ==> match lookup(labels, (#[trigger] pending[k]).label, 0) {
            Some(target) => pending[k].at < code.len() && jump_target(code[pending[k].at as int])
                == Some(target as u16),
            None => true,
        }
}

/// A resolved jump goes where its label was declared: where the jumps are
/// resolved and the target of a jump's label fits an operand, the operand
/// is the target.
pub proof fn lemma_resolved_jump_reaches_its_label(
    code: Seq<Instruction>,
    pending: Seq<JumpModel>,
    labels: Seq<LabelModel>,
    k: int,
)
    requires
        jumps_resolved(code, pending, labels),
        0 <= k < pending.len(),
        lookup(labels, pending[k].label, 0) is Some,
        lookup(labels, pending[k].label, 0).unwrap() <= u16::MAX,
    ensures
        jump_target(code[pending[k].at as int]) == Some(
            lookup(labels, pending[k].label, 0).unwrap() as u16,
        ),
        jump_target(code[pending[k].at as int]).unwrap() == lookup(
            labels,
            pending[k].label,
            0,
        ).unwrap(),
{
}

/// Whether every jump of `code` from `base` on has the operand 0 or one
/// that is at most the target of a label.
spec fn jumps_bounded(code: Seq<Instruction>, base: nat, labels: Seq<LabelModel>) -> bool {
    forall|j: int|
        base <= j < code.len() && jump_target(#[trigger] code[j]) is Some ==> jump_target(
            code[j],
        ).unwrap() == 0 || exists|k: int|
            0 <= k < labels.len() && jump_target(code[j]).unwrap() <= (#[trigger] labels[k]).target
}

/// Whether every jump of `code` from `base` on is the jump of one of
/// `pending`.
pub open spec fn jumps_listed(code: Seq<Instruction>, base: nat, pending: Seq<JumpModel>) -> bool {
    forall|j: int|
        base <= j < code.len() && jump_target(#[trigger] code[j]) is Some ==> exists|k: int|
            0 <= k < pending.len() && (#[trigger] pending[k]).at == j
}

/// Whether every jump refers to a label that is declared.
pub open spec fn labels_declared(pending: Seq<JumpModel>, labels: Seq<LabelModel>) -> bool {
    forall|k: int| 0 <= k < pending.len() ==> lookup(labels, (#[trigger] pending[k]).label, 0) is Some
}

/// Whether every jump of `code` from `base` on is the jump of one of
/// `pending`, and goes to an instruction of `code` where its label
/// marks one.
pub open spec fn jumps_land(
    code: Seq<Instruction>,
    base: nat,
    pending: Seq<JumpModel>,
    labels: Seq<LabelModel>,
) -> bool {
    forall|j: int|
        base <= j < code.len() && jump_target(#[trigger] code[j]) is Some ==> exists|k: int|
            0 <= k < pending.len() && (#[trigger] pending[k]).at == j && match lookup(
                labels,
                pending[k].label,
                0,
            ) {
                Some(target) => target < code.len() ==> jump_target(code[j]).unwrap() < code.len(),
                None => true,
            }
}

/// The low 16 bits of a number are at most the number.
proof fn lemma_low_bits(target: usize)
    ensures
        (target as u16) <= target,
{
    assert((target as u16) as usize <= target) by (bit_vector);
}

proof fn lemma_jumps_land(
    code: Seq<Instruction>,
    base: nat,
    pending: Seq<JumpModel>,
    labels: Seq<LabelModel>,
)
    requires
        jumps_listed(code, base, pending),
        jumps_resolved(code, pending, labels),
    ensures
        jumps_land(code, base, pending, labels),
{
    assert forall|j: int|
        base <= j < code.len() && jump_target(#[trigger] code[j]) is Some implies exists|k: int|
        0 <= k < pending.len() && (#[trigger] pending[k]).at == j && match lookup(
            labels,
            pending[k].label,
            0,
        ) {
            Some(target) => target < code.len() ==> jump_target(code[j]).unwrap() < code.len(),
            None => true,
        } by {
        let k = choose|k: int| 0 <= k < pending.len() && (#[trigger] pending[k]).at == j;
        match lookup(labels, pending[k].label, 0) {
            Some(target) => {
                lemma_low_bits(target);
            },
            None => {},
        }
    }
}

/// Whether every jump of `code` from `base` on goes to an index below
/// `bound`.
pub open spec fn jumps_inside(code: Seq<Instruction>, base: nat, bound: nat) -> bool {
    forall|j: int|
        base <= j < code.len() && jump_target(#[trigger] code[j]) is Some ==> jump_target(
            code[j],
        ).unwrap() < bound
}

/// Whether every label marks an instruction of `code`.
pub open spec fn labels_inside(code: Seq<Instruction>, labels: Seq<LabelModel>) -> bool {
    forall|k: int| 0 <= k < labels.len() ==> (#[trigger] labels[k]).target < code.len()
}

proof fn lemma_jumps_inside(code: Seq<Instruction>, base: nat, labels: Seq<LabelModel>)
    requires
        code.len() > 0,
        jumps_bounded(code, base, labels),
        labels_placed(code, labels),
    ensures
        jumps_inside(code, base, code.len() + 1),
        labels_inside(code, labels) ==> jumps_inside(code, base, code.len()),
{
}

} // verus!
