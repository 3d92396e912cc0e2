//! What the compiler does, as a function on the token stream.
//!
//! A [`State`] is the compiler between two steps: the tokens still to
//! come, the two tokens in hand, the chunk so far, the labels declared,
//! the jumps waiting for their label, and the diagnostics written. Each
//! step of the compiler is a function from state to state.

use vstd::prelude::*;
use crate::balance::{lemma_recovered, lemma_statement, recovered, sound};
use crate::chunk::{ChunkModel, Instruction};
use crate::error::error_text;
use crate::scanner::{is_alpha, is_digit};
use crate::text::decimal;
use crate::token::{TokenKind, TokenModel};
use crate::value::Value;

verus! {

/// A label and the index of the instruction that it marks.
pub struct LabelModel {
    pub name: Seq<char>,
    pub target: usize,
}

/// A jump that waits for its label: the label, the index of the jump
/// instruction, and the line of the reference.
pub struct JumpModel {
    pub label: Seq<char>,
    pub at: usize,
    pub line: usize,
}

/// The type that a numeric literal asks for.
#[derive(Clone, Copy, Debug, PartialEq, Eq, Structural)]
pub enum NumberType {
    U64,
    I64,
    F64,
}

/// The value of a numeric literal; for a float, its numeral.
pub enum LiteralModel {
    U64(u64),
    I64(i64),
    F64(Seq<char>),
}

/// The first position at or after `from` that holds an ASCII letter, or
/// the length of `lexeme`: where the numeral ends and the suffix starts.
pub open spec fn numeral_end(lexeme: Seq<char>, from: int) -> int
    decreases lexeme.len() - from,
{
    if 0 <= from < lexeme.len() && !is_alpha(lexeme[from]) {
        numeral_end(lexeme, from + 1)
    } else {
        from
    }
}

/// The type of a literal with the given suffix, whose numeral holds a dot
/// or not; or the message that refuses the suffix.
pub open spec fn number_type(suffix: Seq<char>, dotted: bool) -> Result<NumberType, Seq<char>> {
    if suffix == "u64"@ {
        if dotted {
            Err("Cannot set u64 suffix to a float number"@)
        } else {
            Ok(NumberType::U64)
        }
    } else if suffix == "i64"@ {
        if dotted {
            Err("Cannot set i64 suffix to a float number"@)
        } else {
            Ok(NumberType::I64)
        }
    } else if suffix == "f64"@ {
        Ok(NumberType::F64)
    } else if suffix == ""@ {
        if dotted {
            Ok(NumberType::F64)
        } else {
            Ok(NumberType::I64)
        }
    } else {
        Err("Invalid suffix '"@ + suffix + "'"@)
    }
}

pub open spec fn all_digits(text: Seq<char>) -> bool {
    forall|i: int| 0 <= i < text.len() ==> is_digit(#[trigger] text[i])
}

/// The number that a digit stands for.
pub open spec fn digit_value(c: char) -> nat {
    (c as int - '0' as int) as nat
}

/// The number that a sequence of digits writes in base ten.
pub open spec fn decimal_value(digits: Seq<char>) -> nat
    decreases digits.len(),
{
    if digits.len() == 0 {
        0
    } else {
        decimal_value(digits.drop_last()) * 10 + digit_value(digits.last())
    }
}

/// The number that `text` writes, where it is one or more digits and the
/// number is at most `max`.
pub open spec fn parse_unsigned(text: Seq<char>, max: nat) -> Option<nat> {
    if text.len() > 0 && all_digits(text) && decimal_value(text) <= max {
        Some(decimal_value(text))
    } else {
        None
    }
}

/// The message for a numeral that its type cannot hold.
pub open spec fn unparsable_text(written: Seq<char>) -> Seq<char> {
    "It was not possible to parse number to type "@ + written
}

/// The value of the numeric literal `lexeme`, or the message that
/// refuses it. The numeral runs up to the first letter, the suffix from
/// there. The numeral of a float is handed on as it is written.
pub open spec fn literal(lexeme: Seq<char>) -> Result<LiteralModel, Seq<char>> {
    let split = numeral_end(lexeme, 0);
    let numeral = lexeme.subrange(0, split);
    let suffix = lexeme.subrange(split, lexeme.len() as int);
    match number_type(suffix, numeral.contains('.')) {
        Ok(NumberType::U64) => match parse_unsigned(numeral, u64::MAX as nat) {
            Some(v) => Ok(LiteralModel::U64(v as u64)),
            None => Err(unparsable_text("u64"@)),
        },
        Ok(NumberType::I64) => match parse_unsigned(numeral, i64::MAX as nat) {
            Some(v) => Ok(LiteralModel::I64(v as i64)),
            None => Err(unparsable_text("i64"@)),
        },
        Ok(NumberType::F64) => Ok(LiteralModel::F64(numeral)),
        Err(message) => Err(message),
    }
}

/// The instructions of a binary operator: one, or one and a `Not`.
pub open spec fn operator_code(kind: TokenKind) -> Option<(Instruction, bool)> {
    match kind {
        TokenKind::BangEqual => Some((Instruction::Equal, true)),
        TokenKind::EqualEqual => Some((Instruction::Equal, false)),
        TokenKind::Greater => Some((Instruction::Greater, false)),
        TokenKind::GreaterEqual => Some((Instruction::Less, true)),
        TokenKind::Less => Some((Instruction::Less, false)),
        TokenKind::LessEqual => Some((Instruction::Greater, true)),
        TokenKind::Minus => Some((Instruction::Subtract, false)),
        TokenKind::Plus => Some((Instruction::Add, false)),
        TokenKind::Star => Some((Instruction::Multiply, false)),
        TokenKind::Slash => Some((Instruction::Divide, false)),
        TokenKind::Percent => Some((Instruction::Modulo, false)),
        TokenKind::ShiftLeft => Some((Instruction::ShiftLeft, false)),
        TokenKind::ShiftRight => Some((Instruction::ShiftRight, false)),
        _ => None,
    }
}

/// Whether a token of this kind can start or continue an expression
/// with an operator.
pub open spec fn is_operator(kind: TokenKind) -> bool {
    operator_code(kind) is Some || kind == TokenKind::Bang || kind == TokenKind::Ampersand
}

/// The target of the first label named `name` among `labels` from index
/// `from` on.
pub open spec fn lookup(labels: Seq<LabelModel>, name: Seq<char>, from: int) -> Option<usize>
    decreases labels.len() - from,
{
    if from < 0 || from >= labels.len() {
        None
    } else if labels[from].name == name {
        Some(labels[from].target)
    } else {
        lookup(labels, name, from + 1)
    }
}

/// Whether one of the first `upto` jumps refers to `label`.
pub open spec fn referred(pending: Seq<JumpModel>, label: Seq<char>, upto: int) -> bool {
    exists|j: int| 0 <= j < upto && j < pending.len() && (#[trigger] pending[j]).label == label
}

/// `code` with the operand of the jump at `at` set to `target`. Only a
/// `Goto` or a `JumpIf` is changed.
pub open spec fn patched(code: Seq<Instruction>, at: int, target: u16) -> Seq<Instruction> {
    if 0 <= at < code.len() {
        match code[at] {
            Instruction::Goto(_) => code.update(at, Instruction::Goto(target)),
            Instruction::JumpIf(_) => code.update(at, Instruction::JumpIf(target)),
            _ => code,
        }
    } else {
        code
    }
}

/// The message for a label that is referred to and never declared.
pub open spec fn missing_label_text(label: Seq<char>, line: usize) -> Seq<char> {
    "Missing label '"@ + label + "', first used in line "@ + decimal(line as nat)
}

/// The token that stands in `current` and `previous` before the first
/// token is read.
pub open spec fn no_token() -> TokenModel {
    TokenModel { kind: TokenKind::Error, lexeme: ""@, line: 0 }
}

/// The compiler between two steps.
pub struct State {
    /// The tokens not yet read. The last of them is `Eof`, and stays.
    pub rest: Seq<TokenModel>,
    pub current: TokenModel,
    pub previous: TokenModel,
    pub had_error: bool,
    pub panic_mode: bool,
    pub chunk: ChunkModel,
    /// The labels declared, in the order of their declaration.
    pub labels: Seq<LabelModel>,
    /// The jumps emitted, in the order of their emission.
    pub pending: Seq<JumpModel>,
    /// The diagnostics written, in order.
    pub reports: Seq<Seq<char>>,
}

impl State {
    /// The state before the first token is read.
    pub open spec fn initial(tokens: Seq<TokenModel>, chunk: ChunkModel) -> State {
        State {
            rest: tokens,
            current: no_token(),
            previous: no_token(),
            had_error: false,
            panic_mode: false,
            chunk,
            labels: Seq::empty(),
            pending: Seq::empty(),
            reports: Seq::empty(),
        }
    }

    /// What is left to read: it falls with every token read before
    /// `Eof` is in hand.
    pub open spec fn measure(self) -> nat {
        self.rest.len() + if self.current.kind == TokenKind::Eof {
            0nat
        } else {
            1nat
        }
    }

    /// Writes the diagnostic for `message` at `token`, unless a
    /// diagnostic was already written for this statement.
    #[verifier::opaque]
    pub open spec fn report_at(self, token: TokenModel, message: Seq<char>) -> State {
        if self.panic_mode {
            self
        } else {
            State {
                reports: self.reports.push(error_text(token, message)),
                had_error: true,
                panic_mode: true,
                ..self
            }
        }
    }

    pub open spec fn report(self, message: Seq<char>) -> State {
        self.report_at(self.previous, message)
    }

    pub open spec fn report_at_current(self, message: Seq<char>) -> State {
        self.report_at(self.current, message)
    }

    /// Reads tokens into `current` up to the first that is no `Error`,
    /// reporting each `Error` passed by its own message.
    #[verifier::opaque]
    pub open spec fn pull(self) -> State
        decreases self.rest.len(),
    {
        if self.rest.len() == 0 {
            self
        } else {
            let token = self.rest[0];
            if token.kind == TokenKind::Error && self.rest.len() > 1 {
                (State {
                    current: token,
                    rest: self.rest.skip(1),
                    ..self.report_at(token, token.lexeme)
                }).pull()
            } else if self.rest.len() > 1 {
                State { current: token, rest: self.rest.skip(1), ..self }
            } else {
                State { current: token, ..self }
            }
        }
    }

    /// Moves on by one token.
    #[verifier::opaque]
    pub open spec fn advance(self) -> State {
        (State { previous: self.current, ..self }).pull()
    }

    /// Appends `instruction`, on the line of the previous token.
    #[verifier::opaque]
    pub open spec fn emit(self, instruction: Instruction) -> State {
        State { chunk: self.chunk.write(instruction, self.previous.line), ..self }
    }

    /// Reads a token of `kind`, or reports `message` at the current one.
    #[verifier::opaque]
    pub open spec fn consume(self, kind: TokenKind, message: Seq<char>) -> State {
        if self.current.kind == kind {
            self.advance()
        } else {
            self.report_at_current(message)
        }
    }

    /// Adds `value` to the constant pool and loads it.
    #[verifier::opaque]
    pub open spec fn make_constant(self, value: Value) -> State {
        if self.chunk.has_room_for_constant() {
            (State { chunk: self.chunk.add_constant(value), ..self }).emit(
                Instruction::Constant(self.chunk.constants.len() as u16),
            )
        } else {
            self.report("Could not add constant, reached limit of u16 max size"@)
        }
    }

    /// Adds a float constant whose value is still to come, notes its
    /// numeral, and loads it.
    #[verifier::opaque]
    pub open spec fn make_float(self, numeral: Seq<char>) -> State {
        if self.chunk.has_room_for_constant() {
            (State { chunk: self.chunk.add_float(numeral, self.previous.line), ..self
            }).emit(Instruction::Constant(self.chunk.constants.len() as u16))
        } else {
            self.report("Could not add constant, reached limit of u16 max size"@)
        }
    }

    /// Compiles the numeric literal in `previous`.
    #[verifier::opaque]
    pub open spec fn number(self) -> State {
        match literal(self.previous.lexeme) {
            Ok(LiteralModel::U64(v)) => self.make_constant(Value::U64(v)),
            Ok(LiteralModel::I64(v)) => self.make_constant(Value::I64(v)),
            Ok(LiteralModel::F64(numeral)) => self.make_float(numeral),
            Err(message) => self.report(message),
        }
    }

    /// Compiles the character literal in `previous`: its value is the
    /// character behind the opening quote.
    #[verifier::opaque]
    pub open spec fn character(self) -> State {
        if self.previous.lexeme.len() > 1 {
            self.make_constant(Value::Char(self.previous.lexeme[1]))
        } else {
            self.report("Invalid token of kind Char"@)
        }
    }

    /// Interns the name in `previous` and loads the variable of that
    /// name, or its address where `create` is set.
    #[verifier::opaque]
    pub open spec fn variable(self, create: bool) -> State {
        match self.chunk.name_index(self.previous.lexeme) {
            Some(index) => (State { chunk: self.chunk.add_name(self.previous.lexeme), ..self }).emit(
                if create {
                    Instruction::GetOrCreateVar(index)
                } else {
                    Instruction::GetVar(index)
                },
            ),
            None => self.report("The program uses too many variables (65535+)"@),
        }
    }

    /// Reads one operand and loads it.
    #[verifier::opaque]
    pub open spec fn operand(self) -> State {
        let next = self.advance();
        match next.previous.kind {
            TokenKind::Identifier => next.variable(false),
            TokenKind::True => next.emit(Instruction::True),
            TokenKind::False => next.emit(Instruction::False),
            TokenKind::Char => next.character(),
            TokenKind::Number => next.number(),
            TokenKind::String => next.report(
                "String literals are only allowed in the data section"@,
            ),
            _ => next.report("Invalid operand, expected literal value or variable name"@),
        }
    }

    /// Whether the expression ahead starts with a unary operator.
    pub open spec fn starts_unary(self) -> bool {
        self.current.kind == TokenKind::Bang || self.current.kind == TokenKind::Minus
            || self.current.kind == TokenKind::Star || self.current.kind == TokenKind::Ampersand
    }

    /// Compiles a unary expression: the operand, then `Not` or `Negate`.
    /// `*` and `&` are refused.
    #[verifier::opaque]
    pub open spec fn unary_expression(self) -> State
        recommends
            self.starts_unary(),
    {
        match self.current.kind {
            TokenKind::Bang => self.advance().operand().emit(Instruction::Not),
            TokenKind::Minus => self.advance().operand().emit(Instruction::Negate),
            TokenKind::Star => self.report_at_current(
                "Dereference expressions are not supported yet"@,
            ),
            _ => self.report_at_current("Reference expressions are not supported yet"@),
        }
    }

    /// Compiles an expression: a unary expression, or an operand, or two
    /// operands under one binary operator.
    #[verifier::opaque]
    pub open spec fn expression(self) -> State {
        if self.starts_unary() {
            self.unary_expression()
        } else if self.current.kind == TokenKind::Call {
            self.report_at_current("Call expressions are not supported yet"@)
        } else if self.current.kind == TokenKind::Scan {
            self.report_at_current("Scan expressions are not supported yet"@)
        } else {
            let left = self.operand();
            match operator_code(left.current.kind) {
                Some((instruction, negated)) => {
                    let both = left.advance().operand().emit(instruction);
                    if negated {
                        both.emit(Instruction::Not)
                    } else {
                        both
                    }
                },
                None => left,
            }
        }
    }

    /// `print e` and `println e`.
    #[verifier::opaque]
    pub open spec fn print_statement(self) -> State {
        self.expression().emit(Instruction::Print(self.previous.kind == TokenKind::PrintLn))
    }

    /// Notes that the jump about to be emitted waits for the label in
    /// `previous`, and emits it.
    #[verifier::opaque]
    pub open spec fn jump(self, conditional: bool) -> State {
        (State {
            pending: self.pending.push(
                JumpModel {
                    label: self.previous.lexeme,
                    at: self.chunk.code.len() as usize,
                    line: self.previous.line,
                },
            ),
            ..self
        }).emit(
            if conditional {
                Instruction::JumpIf(0)
            } else {
                Instruction::Goto(0)
            },
        )
    }

    /// `goto L`.
    #[verifier::opaque]
    pub open spec fn goto_statement(self) -> State {
        self.consume(TokenKind::Identifier, "Missing label for 'goto' statement"@).jump(false)
    }

    /// `if e goto L` and `ifFalse e goto L`; the latter inverts the
    /// condition with a `Not`.
    #[verifier::opaque]
    pub open spec fn if_statement(self) -> State {
        let negate = self.previous.kind == TokenKind::IfFalse;
        let name = if negate {
            "ifFalse"@
        } else {
            "if"@
        };
        let read = self.expression().consume(
            TokenKind::Goto,
            "Missing 'goto' keyword after "@ + name + " statement"@,
        ).consume(TokenKind::Identifier, "Missing label after "@ + name + " statement"@);
        if negate {
            read.emit(Instruction::Not).jump(true)
        } else {
            read.jump(true)
        }
    }

    /// `x = e`, `x[] = e` and `*x = e`.
    #[verifier::opaque]
    pub open spec fn assignment(self) -> State {
        let dereference = self.previous.kind == TokenKind::Star;
        let named = if dereference {
            self.consume(TokenKind::Identifier, "A variable is required to be dereferenced"@)
        } else {
            self
        };
        if named.chunk.name_index(named.previous.lexeme) is None {
            named.variable(true)
        } else {
            let target = named.variable(true);
            if target.current.kind == TokenKind::LeftBracket {
                if dereference {
                    target.advance().report(
                        "Dereferenced variables can not be accessed via array indexes in the same statement"@,
                    )
                } else {
                    target.advance().consume(
                        TokenKind::RightBracket,
                        "Missing ']': Array accesses must be enclosed by brackets"@,
                    ).assigned()
                }
            } else {
                target.assigned()
            }
        }
    }

    /// The rest of an assignment behind its target: `= e`.
    #[verifier::opaque]
    pub open spec fn assigned(self) -> State {
        self.consume(
            TokenKind::Equal,
            "Assignment statement expected, but no '=' was found"@,
        ).expression().emit(Instruction::Assign)
    }

    /// `L:` declares the label `L` for the next instruction; anything
    /// else behind an identifier is an assignment.
    #[verifier::opaque]
    pub open spec fn label_or_assignment(self) -> State {
        let identifier = self.previous;
        if self.current.kind == TokenKind::Colon {
            let next = self.advance();
            if lookup(next.labels, identifier.lexeme, 0) is Some {
                next.report_at(identifier, "Redefinition of labels is not allowed"@)
            } else {
                State {
                    labels: next.labels.push(
                        LabelModel {
                            name: identifier.lexeme,
                            target: next.chunk.code.len() as usize,
                        },
                    ),
                    ..next
                }
            }
        } else {
            self.assignment()
        }
    }

    /// What has to follow a statement: the end of the line.
    #[verifier::opaque]
    pub open spec fn line_end(self) -> State {
        if self.current.kind == TokenKind::NewLine || self.current.kind == TokenKind::Eof {
            self
        } else if is_operator(self.current.kind) {
            self.report_at_current(
                "Three-address code programs support at most binary expressions"@,
            )
        } else {
            self.report_at_current("There must be at most one statement per line"@)
        }
    }

    /// Compiles one statement.
    #[verifier::opaque]
    pub open spec fn statement(self) -> State {
        let next = self.advance();
        match next.previous.kind {
            TokenKind::Print => next.print_statement().line_end(),
            TokenKind::PrintLn => next.print_statement().line_end(),
            TokenKind::If => next.if_statement().line_end(),
            TokenKind::IfFalse => next.if_statement().line_end(),
            TokenKind::Goto => next.goto_statement().line_end(),
            TokenKind::Halt => next.emit(Instruction::Halt).line_end(),
            TokenKind::Star => next.assignment().line_end(),
            TokenKind::Identifier => next.label_or_assignment().line_end(),
            TokenKind::NewLine => next,
            TokenKind::Eof => next,
            TokenKind::Equal => next.report(
                "Assignments must have a variable on the left side"@,
            ).line_end(),
            TokenKind::Scan => next.report(
                "Return value of scan must be assigned to a variable"@,
            ).line_end(),
            kind => next.report("Invalid statement with token "@ + kind.name_spec()).line_end(),
        }
    }

    /// Reads on to the start of the next line.
    #[verifier::opaque]
    pub open spec fn skip_line(self) -> State
        decreases self.measure(),
    {
        if self.current.kind == TokenKind::Eof || self.previous.kind == TokenKind::NewLine {
            self
        } else {
            let next = self.advance();
            if next.measure() < self.measure() {
                next.skip_line()
            } else {
                next
            }
        }
    }

    /// Recovers from an error: diagnostics are written again, from the
    /// next line on.
    #[verifier::opaque]
    pub open spec fn synchronize(self) -> State {
        (State { panic_mode: false, ..self }).skip_line()
    }

    /// Compiles the statements up to `Eof`, recovering after each one
    /// that failed.
    #[verifier::opaque]
    pub open spec fn statements(self) -> State
        decreases self.measure(),
    {
        if self.current.kind == TokenKind::Eof {
            self.advance()
        } else {
            let compiled = self.statement();
            let next = if compiled.panic_mode {
                compiled.synchronize()
            } else {
                compiled
            };
            if next.measure() < self.measure() {
                next.statements()
            } else {
                next
            }
        }
    }

    /// Gives the jumps from number `from` on their targets, and reports
    /// each label that was never declared, once, where it is first
    /// referred to.
    #[verifier::opaque]
    pub open spec fn resolve(self, from: int) -> State
        decreases self.pending.len() - from,
    {
        if from < 0 || from >= self.pending.len() {
            self
        } else {
            let jump = self.pending[from];
            match lookup(self.labels, jump.label, 0) {
                Some(target) => (State {
                    chunk: ChunkModel {
                        code: patched(self.chunk.code, jump.at as int, target as u16),
                        ..self.chunk
                    },
                    ..self
                }).resolve(from + 1),
                None => if referred(self.pending, jump.label, from) {
                    self.resolve(from + 1)
                } else {
                    (State {
                        reports: self.reports.push(
                            error_text(self.previous, missing_label_text(jump.label, jump.line)),
                        ),
                        had_error: true,
                        ..self
                    }).resolve(from + 1)
                },
            }
        }
    }

    /// Ends the program with `Halt`, unless it ends with one, and
    /// resolves the jumps.
    #[verifier::opaque]
    pub open spec fn end(self) -> State {
        if self.chunk.code.len() > 0 && self.chunk.code.last() == Instruction::Halt {
            self.resolve(0)
        } else {
            self.emit(Instruction::Halt).resolve(0)
        }
    }
}

/// The state in which compiling `tokens` into `chunk` ends.
pub open spec fn compiled(tokens: Seq<TokenModel>, chunk: ChunkModel) -> State {
    State::initial(tokens, chunk).advance().statements().end()
}

/// A literal has the type that its suffix names; without a suffix it is
/// a float where its numeral holds a dot, and a signed integer where it
/// does not.
pub proof fn lemma_literal_type(lexeme: Seq<char>)
    ensures
        ({
            let split = numeral_end(lexeme, 0);
            let numeral = lexeme.subrange(0, split);
            let suffix = lexeme.subrange(split, lexeme.len() as int);
            let dotted = numeral.contains('.');
            &&& suffix == "u64"@ ==> (literal(lexeme) matches Ok(value) ==> value is U64)
            &&& suffix == "i64"@ ==> (literal(lexeme) matches Ok(value) ==> value is I64)
            &&& suffix == "f64"@ ==> literal(lexeme) == Ok::<LiteralModel, Seq<char>>(
                LiteralModel::F64(numeral),
            )
            &&& suffix == ""@ && dotted ==> literal(lexeme) == Ok::<LiteralModel, Seq<char>>(
                LiteralModel::F64(numeral),
            )
            &&& suffix == ""@ && !dotted ==> (literal(lexeme) matches Ok(value) ==> value is I64)
        }),
{
    reveal_strlit("u64");
    reveal_strlit("i64");
    reveal_strlit("f64");
    reveal_strlit("");
    lemma_numeral_end(lexeme, 0);
    assert("u64"@[0] == 'u' && "i64"@[0] == 'i' && "f64"@[0] == 'f');
    assert("u64"@ != "i64"@);
    assert("u64"@ != "f64"@);
    assert("i64"@ != "f64"@);
    assert("u64"@.len() == 3 && "i64"@.len() == 3 && "f64"@.len() == 3 && ""@.len() == 0);
}

/// The numeral ends inside the lexeme, at or after `from`.
pub proof fn lemma_numeral_end(lexeme: Seq<char>, from: int)
    requires
        0 <= from <= lexeme.len(),
    ensures
        from <= numeral_end(lexeme, from) <= lexeme.len(),
    decreases lexeme.len() - from,
{
    if from < lexeme.len() && !is_alpha(lexeme[from]) {
        lemma_numeral_end(lexeme, from + 1);
    }
}

/// The constant that a literal of each type becomes: an integer literal
/// becomes the constant of its value, a float literal a float constant
/// that waits for its value.
pub proof fn lemma_number_constant(state: State)
    requires
        state.chunk.has_room_for_constant(),
        literal(state.previous.lexeme) is Ok,
    ensures
        state.number().chunk.constants.len() == state.chunk.constants.len() + 1,
        match literal(state.previous.lexeme) {
            Ok(LiteralModel::U64(v)) => state.number().chunk.constants.last() == Value::U64(v),
            Ok(LiteralModel::I64(v)) => state.number().chunk.constants.last() == Value::I64(v),
            Ok(LiteralModel::F64(numeral)) => state.number().chunk.constants.last() is F64
                && state.number().chunk.floats.last().numeral == numeral,
            Err(_) => true,
        },
{
    reveal(State::number);
    reveal(State::make_constant);
    reveal(State::make_float);
    reveal(State::emit);
}

/// `ifFalse X goto L` compiles as `if !X goto L` does, where `X` is one
/// operand: from states that differ only in these tokens, the two
/// statements lead to the same state, and so to the same code.
pub proof fn lemma_if_false_is_if_not(
    state: State,
    if_false: TokenModel,
    keyword: TokenModel,
    bang: TokenModel,
    condition: TokenModel,
    goto: TokenModel,
    label: TokenModel,
    tail: Seq<TokenModel>,
)
    requires
        if_false.kind == TokenKind::IfFalse,
        keyword.kind == TokenKind::If,
        bang.kind == TokenKind::Bang,
        condition.kind == TokenKind::Identifier || condition.kind == TokenKind::Number
            || condition.kind == TokenKind::Char || condition.kind == TokenKind::True
            || condition.kind == TokenKind::False,
        goto.kind == TokenKind::Goto,
        label.kind == TokenKind::Identifier,
        condition.line == label.line,
        tail.len() > 0,
    ensures
        (State {
            previous: if_false,
            current: condition,
            rest: seq![goto, label] + tail,
            ..state
        }).if_statement() == (State {
            previous: keyword,
            current: bang,
            rest: seq![condition, goto, label] + tail,
            ..state
        }).if_statement(),
{
    let negated = State {
        previous: if_false,
        current: condition,
        rest: seq![goto, label] + tail,
        ..state
    };
    let inverted = State {
        previous: keyword,
        current: bang,
        rest: seq![condition, goto, label] + tail,
        ..state
    };
    assert((seq![condition, goto, label] + tail).skip(1) =~= seq![goto, label] + tail);
    assert((seq![goto, label] + tail).skip(1) =~= seq![label] + tail);
    assert((seq![label] + tail).skip(1) =~= tail);
    // Reading the `!` leaves what `ifFalse` starts from, but for the
    // token behind, which reading the operand replaces.
    let read = inverted.advance();
    assert(read == State { previous: bang, ..negated }) by {
        reveal(State::advance);
        reveal(State::pull);
    }
    assert(read.operand() == negated.operand()) by {
        reveal(State::operand);
        reveal(State::advance);
    }
    let loaded = negated.operand();
    lemma_operand_reads_one(negated);
    // Behind the operand both read `goto` and the label; the `Not` goes
    // in before or after that, on the same line.
    let not = Instruction::Not;
    let early = loaded.emit(not);
    lemma_advance_keeps_chunk(loaded, early.chunk);
    lemma_advance_keeps_chunk(loaded.advance(), early.chunk);
    let behind = loaded.advance().advance();
    assert(loaded.advance().current == label && loaded.advance().rest == tail) by {
        reveal(State::advance);
        reveal(State::pull);
    }
    lemma_advance_keeps(loaded);
    lemma_advance_keeps(loaded.advance());
    assert(early == State { chunk: early.chunk, ..loaded }) by {
        reveal(State::emit);
    }
    assert(early.advance().advance() == behind.emit(not)) by {
        reveal(State::emit);
    }
    assert(negated.if_statement() == behind.emit(not).jump(true)) by {
        reveal(State::if_statement);
        reveal(State::expression);
        reveal(State::consume);
        reveal(State::advance);
        reveal(State::pull);
    }
    assert(inverted.if_statement() == early.advance().advance().jump(true)) by {
        reveal(State::if_statement);
        reveal(State::expression);
        reveal(State::unary_expression);
        reveal(State::consume);
        reveal(State::advance);
        reveal(State::pull);
        reveal(State::emit);
    }
}

/// Reading on changes neither the chunk nor the token behind.
proof fn lemma_pull_keeps(state: State)
    ensures
        state.pull().chunk == state.chunk,
        state.pull().previous == state.previous,
        state.pull().labels == state.labels,
        state.pull().pending == state.pending,
    decreases state.rest.len(),
{
    reveal(State::pull);
    reveal(State::report_at);
    if state.rest.len() > 1 && state.rest[0].kind == TokenKind::Error {
        let token = state.rest[0];
        lemma_pull_keeps(
            State {
                current: token,
                rest: state.rest.skip(1),
                ..state.report_at(token, token.lexeme)
            },
        );
    }
}

/// Moving on by one token changes neither chunk, labels nor jumps, and
/// puts the current token behind.
proof fn lemma_advance_keeps(state: State)
    ensures
        state.advance().chunk == state.chunk,
        state.advance().previous == state.current,
        state.advance().labels == state.labels,
        state.advance().pending == state.pending,
{
    reveal(State::advance);
    lemma_pull_keeps(State { previous: state.current, ..state });
}

/// Reading on does not look at the chunk.
proof fn lemma_pull_chunk(state: State, chunk: ChunkModel)
    ensures
        (State { chunk, ..state }).pull() == (State { chunk, ..state.pull() }),
    decreases state.rest.len(),
{
    reveal(State::pull);
    reveal(State::report_at);
    if state.rest.len() > 1 && state.rest[0].kind == TokenKind::Error {
        let token = state.rest[0];
        lemma_pull_chunk(
            State {
                current: token,
                rest: state.rest.skip(1),
                ..state.report_at(token, token.lexeme)
            },
            chunk,
        );
    }
}

/// Moving on by one token does not look at the chunk.
proof fn lemma_advance_keeps_chunk(state: State, chunk: ChunkModel)
    ensures
        (State { chunk, ..state }).advance() == (State { chunk, ..state.advance() }),
{
    reveal(State::advance);
    lemma_pull_chunk(State { previous: state.current, ..state }, chunk);
}

/// Reading one operand moves on by one token, and leaves the chunk on
/// the line of the operand where it emitted anything.
proof fn lemma_operand_reads_one(state: State)
    requires
        state.rest.len() > 1,
        state.rest[0].kind != TokenKind::Error,
    ensures
        state.operand().previous == state.current,
        state.operand().current == state.rest[0],
        state.operand().rest == state.rest.skip(1),
        state.operand().pending == state.pending,
        state.operand().labels == state.labels,
{
    reveal(State::operand);
    reveal(State::advance);
    reveal(State::pull);
    reveal(State::report_at);
    reveal(State::variable);
    reveal(State::emit);
    reveal(State::character);
    reveal(State::number);
    reveal(State::make_constant);
    reveal(State::make_float);
}

/// A program with the line `ifFalse X goto L` compiles as the program
/// with `if !X goto L` in its place does, where `X` is one operand: from
/// any state of the compiler at the start of that line, with whatever
/// lines behind it, the two programs end in the same state, and so in
/// the same code, the same diagnostics and the same result.
pub proof fn lemma_if_false_line_is_if_not_line(
    state: State,
    if_false: TokenModel,
    keyword: TokenModel,
    bang: TokenModel,
    condition: TokenModel,
    goto: TokenModel,
    label: TokenModel,
    tail: Seq<TokenModel>,
)
    requires
        sound(state),
        if_false.kind == TokenKind::IfFalse,
        keyword.kind == TokenKind::If,
        bang.kind == TokenKind::Bang,
        condition.kind == TokenKind::Identifier || condition.kind == TokenKind::Number
            || condition.kind == TokenKind::Char || condition.kind == TokenKind::True
            || condition.kind == TokenKind::False,
        goto.kind == TokenKind::Goto,
        label.kind == TokenKind::Identifier,
        condition.line == label.line,
        tail.len() > 0,
        tail.last().kind == TokenKind::Eof,
    ensures
        (State {
            current: if_false,
            rest: seq![condition, goto, label] + tail,
            ..state
        }).statements().end() == (State {
            current: keyword,
            rest: seq![bang, condition, goto, label] + tail,
            ..state
        }).statements().end(),
{
    let negated = State { current: if_false, rest: seq![condition, goto, label] + tail, ..state };
    let inverted = State {
        current: keyword,
        rest: seq![bang, condition, goto, label] + tail,
        ..state
    };
    assert((seq![condition, goto, label] + tail).skip(1) =~= seq![goto, label] + tail);
    assert((seq![bang, condition, goto, label] + tail).skip(1) =~= seq![condition, goto, label]
        + tail);
    assert((seq![condition, goto, label] + tail).last() == tail.last());
    assert((seq![bang, condition, goto, label] + tail).last() == tail.last());
    // Both read their keyword and compile the statement behind it.
    assert(negated.advance() == State {
        previous: if_false,
        current: condition,
        rest: seq![goto, label] + tail,
        ..state
    }) by {
        reveal(State::advance);
        reveal(State::pull);
    }
    assert(inverted.advance() == State {
        previous: keyword,
        current: bang,
        rest: seq![condition, goto, label] + tail,
        ..state
    }) by {
        reveal(State::advance);
        reveal(State::pull);
    }
    lemma_if_false_is_if_not(state, if_false, keyword, bang, condition, goto, label, tail);
    lemma_statement(negated);
    lemma_statement(inverted);
    assert(negated.statement() == inverted.statement());
    // Both have read on, so both go on with what follows, which is the
    // same.
    lemma_recovered(negated);
    lemma_recovered(inverted);
    assert(recovered(negated) == recovered(inverted));
    reveal(State::statements);
}

/// The same for whole programs that start with the line: compiled into
/// the same chunk, they end in the same state.
pub proof fn lemma_if_false_program_is_if_not_program(
    chunk: ChunkModel,
    if_false: TokenModel,
    keyword: TokenModel,
    bang: TokenModel,
    condition: TokenModel,
    goto: TokenModel,
    label: TokenModel,
    tail: Seq<TokenModel>,
)
    requires
        if_false.kind == TokenKind::IfFalse,
        keyword.kind == TokenKind::If,
        bang.kind == TokenKind::Bang,
        condition.kind == TokenKind::Identifier || condition.kind == TokenKind::Number
            || condition.kind == TokenKind::Char || condition.kind == TokenKind::True
            || condition.kind == TokenKind::False,
        goto.kind == TokenKind::Goto,
        label.kind == TokenKind::Identifier,
        condition.line == label.line,
        tail.len() > 0,
        tail.last().kind == TokenKind::Eof,
    ensures
        compiled(seq![if_false, condition, goto, label] + tail, chunk) == compiled(
            seq![keyword, bang, condition, goto, label] + tail,
            chunk,
        ),
{
    let negated = seq![if_false, condition, goto, label] + tail;
    let inverted = seq![keyword, bang, condition, goto, label] + tail;
    let state = State { previous: no_token(), ..State::initial(negated, chunk) };
    assert(negated.skip(1) =~= seq![condition, goto, label] + tail);
    assert(inverted.skip(1) =~= seq![bang, condition, goto, label] + tail);
    assert(State::initial(negated, chunk).advance() == State {
        current: if_false,
        rest: seq![condition, goto, label] + tail,
        ..state
    }) by {
        reveal(State::advance);
        reveal(State::pull);
    }
    assert(State::initial(inverted, chunk).advance() == State {
        current: keyword,
        rest: seq![bang, condition, goto, label] + tail,
        ..state
    }) by {
        reveal(State::advance);
        reveal(State::pull);
    }
    lemma_if_false_line_is_if_not_line(
        state,
        if_false,
        keyword,
        bang,
        condition,
        goto,
        label,
        tail,
    );
}

} // verus!
