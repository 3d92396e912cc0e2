//! The stack discipline of compiled code: what the instructions of a
//! program push, they take again, and they take nothing that was not
//! pushed.

use vstd::prelude::*;
use crate::chunk::{ChunkModel, Instruction};
use crate::compilation::{
    compiled,
    literal,
    lookup,
    missing_label_text,
    operator_code,
    patched,
    referred,
    LiteralModel,
    State,
};
use crate::error::error_text;
use crate::machine::Machine;
use crate::token::{TokenKind, TokenModel};
use crate::value::Value;

verus! {

/// What `instruction` adds to the height of the stack, the slot that a
/// new variable gets aside. A call is counted as nothing: what it takes
/// depends on the number of arguments, and no source compiles to one.
pub open spec fn stack_effect(instruction: Instruction) -> int {
    match instruction {
        Instruction::Constant(_) => 1,
        Instruction::True => 1,
        Instruction::False => 1,
        Instruction::GetVar(_) => 1,
        Instruction::GetOrCreateVar(_) => 1,
        Instruction::Negate => 0,
        Instruction::Not => 0,
        Instruction::Goto(_) => 0,
        Instruction::Halt => 0,
        Instruction::Return => 0,
        Instruction::Call(_) => 0,
        Instruction::Assign => -2,
        _ => -1,
    }
}

/// What the instructions of `code` add to the height of the stack, taken
/// one after the other.
pub open spec fn net_effect(code: Seq<Instruction>) -> int
    decreases code.len(),
{
    if code.len() == 0 {
        0
    } else {
        net_effect(code.drop_last()) + stack_effect(code.last())
    }
}

/// Whether a state is one that compiling can be in: in panic mode only
/// behind a reported error.
pub open spec fn sound(state: State) -> bool {
    state.panic_mode ==> state.had_error
}

/// Whether the tokens still to come end as a scanner's do: with `Eof`.
pub open spec fn stream_ok(state: State) -> bool {
    state.rest.len() >= 1 && state.rest.last().kind == TokenKind::Eof
}

/// What is below zero of `effect`.
pub open spec fn dip(effect: int) -> int {
    if effect < 0 {
        effect
    } else {
        0
    }
}

/// Whether `after` is `before` with code behind it that leaves `pushed`
/// values on the stack, and on the way never takes the stack lower than
/// `low` under where it started.
pub open spec fn grows(
    before: Seq<Instruction>,
    after: Seq<Instruction>,
    pushed: int,
    low: int,
) -> bool {
    &&& before.len() <= after.len()
    &&& after.take(before.len() as int) == before
    &&& net_effect(after) == net_effect(before) + pushed
    &&& forall|i: int|
        before.len() <= i <= after.len() ==> net_effect(#[trigger] after.take(i)) >= net_effect(
            before,
        ) + low
}

/// Whether the step from `before` to `after` keeps the state sound, keeps
/// an error that was reported, reads on in a stream that ends with
/// `Eof`, and, unless an error is reported, adds code that leaves
/// `pushed` values and goes no lower than `low`.
pub open spec fn leaves(before: State, after: State, pushed: int, low: int) -> bool {
    &&& sound(after)
    &&& (before.had_error ==> after.had_error)
    &&& (stream_ok(before) ==> stream_ok(after) && after.measure() <= before.measure())
    &&& (after.had_error || grows(before.chunk.code, after.chunk.code, pushed, low))
}

/// Whether two codes are as long as each other and each instruction has
/// the effect of the one in its place.
pub open spec fn same_effects(a: Seq<Instruction>, b: Seq<Instruction>) -> bool {
    &&& a.len() == b.len()
    &&& forall|i: int| 0 <= i < a.len() ==> stack_effect(#[trigger] a[i]) == stack_effect(b[i])
}

proof fn lemma_push(code: Seq<Instruction>, instruction: Instruction)
    ensures
        net_effect(code.push(instruction)) == net_effect(code) + stack_effect(instruction),
{
    assert(code.push(instruction).drop_last() =~= code);
}

/// Code that differs only in the operands of its jumps has the same
/// effect, up to every instruction.
proof fn lemma_same_effects(a: Seq<Instruction>, b: Seq<Instruction>)
    requires
        same_effects(a, b),
    ensures
        net_effect(a) == net_effect(b),
        forall|i: int| 0 <= i <= a.len() ==> net_effect(#[trigger] a.take(i)) == net_effect(b.take(i)),
    decreases a.len(),
{
    if a.len() > 0 {
        lemma_same_effects(a.drop_last(), b.drop_last());
        assert forall|i: int| 0 <= i <= a.len() implies net_effect(#[trigger] a.take(i))
            == net_effect(b.take(i)) by {
            if i < a.len() {
                assert(a.take(i) =~= a.drop_last().take(i));
                assert(b.take(i) =~= b.drop_last().take(i));
            } else {
                assert(a.take(i) =~= a);
                assert(b.take(i) =~= b);
            }
        }
    } else {
        assert forall|i: int| 0 <= i <= a.len() implies net_effect(#[trigger] a.take(i))
            == net_effect(b.take(i)) by {
            assert(a.take(i) =~= a);
            assert(b.take(i) =~= b);
        }
    }
}

proof fn lemma_grows_none(code: Seq<Instruction>)
    ensures
        grows(code, code, 0, 0),
{
    assert forall|i: int| code.len() <= i <= code.len() implies net_effect(#[trigger] code.take(i))
        >= net_effect(code) by {
        assert(code.take(i) =~= code);
    }
    assert(code.take(code.len() as int) =~= code);
}

proof fn lemma_grows_push(code: Seq<Instruction>, instruction: Instruction)
    ensures
        grows(
            code,
            code.push(instruction),
            stack_effect(instruction),
            dip(stack_effect(instruction)),
        ),
{
    let longer = code.push(instruction);
    lemma_push(code, instruction);
    assert(longer.take(code.len() as int) =~= code);
    assert forall|i: int| code.len() <= i <= longer.len() implies net_effect(
        #[trigger] longer.take(i),
    ) >= net_effect(code) + dip(stack_effect(instruction)) by {
        if i == code.len() {
            assert(longer.take(i) =~= code);
        } else {
            assert(longer.take(i) =~= longer);
        }
    }
}

proof fn lemma_grows_then(
    a: Seq<Instruction>,
    b: Seq<Instruction>,
    c: Seq<Instruction>,
    p1: int,
    l1: int,
    p2: int,
    l2: int,
    low: int,
)
    requires
        grows(a, b, p1, l1),
        grows(b, c, p2, l2),
        low <= l1,
        low <= p1 + l2,
    ensures
        grows(a, c, p1 + p2, low),
{
    assert(c.take(a.len() as int) =~= c.take(b.len() as int).take(a.len() as int));
    assert forall|i: int| a.len() <= i <= c.len() implies net_effect(#[trigger] c.take(i))
        >= net_effect(a) + low by {
        if i <= b.len() {
            assert(c.take(i) =~= c.take(b.len() as int).take(i));
            assert(net_effect(b.take(i)) >= net_effect(a) + l1);
        }
    }
}

/// One step behind the other.
proof fn lemma_then(
    a: State,
    b: State,
    c: State,
    p1: int,
    l1: int,
    p2: int,
    l2: int,
    low: int,
)
    requires
        leaves(a, b, p1, l1),
        leaves(b, c, p2, l2),
        low <= l1,
        low <= p1 + l2,
    ensures
        leaves(a, c, p1 + p2, low),
{
    if !c.had_error {
        lemma_grows_then(a.chunk.code, b.chunk.code, c.chunk.code, p1, l1, p2, l2, low);
    }
}

proof fn lemma_stay(state: State)
    requires
        sound(state),
    ensures
        leaves(state, state, 0, 0),
{
    lemma_grows_none(state.chunk.code);
}

proof fn lemma_report_at(
    state: State,
    token: TokenModel,
    message: Seq<char>,
    pushed: int,
    low: int,
)
    requires
        sound(state),
    ensures
        leaves(state, state.report_at(token, message), pushed, low),
        state.report_at(token, message).had_error,
{
    reveal(State::report_at);
}

proof fn lemma_pull(state: State)
    requires
        sound(state),
    ensures
        leaves(state, state.pull(), 0, 0),
        stream_ok(state) ==> state.pull().measure() <= state.rest.len(),
    decreases state.rest.len(),
{
    reveal(State::pull);
    reveal(State::report_at);
    lemma_grows_none(state.chunk.code);
    if state.rest.len() > 1 {
        assert(state.rest.skip(1).last() == state.rest.last());
        if state.rest[0].kind == TokenKind::Error {
            let token = state.rest[0];
            let next = State {
                current: token,
                rest: state.rest.skip(1),
                ..state.report_at(token, token.lexeme)
            };
            lemma_pull(next);
        }
    }
}

proof fn lemma_advance(state: State)
    requires
        sound(state),
    ensures
        leaves(state, state.advance(), 0, 0),
        stream_ok(state) && state.current.kind != TokenKind::Eof ==> state.advance().measure()
            < state.measure(),
{
    reveal(State::advance);
    lemma_pull(State { previous: state.current, ..state });
}

proof fn lemma_emit(state: State, instruction: Instruction)
    requires
        sound(state),
    ensures
        leaves(
            state,
            state.emit(instruction),
            stack_effect(instruction),
            dip(stack_effect(instruction)),
        ),
{
    reveal(State::emit);
    lemma_grows_push(state.chunk.code, instruction);
}

proof fn lemma_consume(state: State, kind: TokenKind, message: Seq<char>)
    requires
        sound(state),
    ensures
        leaves(state, state.consume(kind, message), 0, 0),
{
    reveal(State::consume);
    lemma_advance(state);
    lemma_report_at(state, state.current, message, 0, 0);
}

proof fn lemma_make_constant(state: State, value: Value)
    requires
        sound(state),
    ensures
        leaves(state, state.make_constant(value), 1, 0),
{
    reveal(State::make_constant);
    let added = State { chunk: state.chunk.add_constant(value), ..state };
    lemma_emit(added, Instruction::Constant(state.chunk.constants.len() as u16));
    lemma_report_at(
        state,
        state.previous,
        "Could not add constant, reached limit of u16 max size"@,
        1,
        0,
    );
}

proof fn lemma_make_float(state: State, numeral: Seq<char>)
    requires
        sound(state),
    ensures
        leaves(state, state.make_float(numeral), 1, 0),
{
    reveal(State::make_float);
    let added = State { chunk: state.chunk.add_float(numeral, state.previous.line), ..state };
    lemma_emit(added, Instruction::Constant(state.chunk.constants.len() as u16));
    lemma_report_at(
        state,
        state.previous,
        "Could not add constant, reached limit of u16 max size"@,
        1,
        0,
    );
}

proof fn lemma_variable(state: State, create: bool)
    requires
        sound(state),
    ensures
        leaves(state, state.variable(create), 1, 0),
{
    reveal(State::variable);
    match state.chunk.name_index(state.previous.lexeme) {
        Some(index) => {
            let named = State { chunk: state.chunk.add_name(state.previous.lexeme), ..state };
            lemma_emit(named, Instruction::GetOrCreateVar(index));
            lemma_emit(named, Instruction::GetVar(index));
        },
        None => {
            lemma_report_at(
                state,
                state.previous,
                "The program uses too many variables (65535+)"@,
                1,
                0,
            );
        },
    }
}

/// What reading an operand does behind the token that it reads.
proof fn lemma_loaded(next: State)
    requires
        sound(next),
    ensures
        leaves(
            next,
            match next.previous.kind {
                TokenKind::Identifier => next.variable(false),
                TokenKind::True => next.emit(Instruction::True),
                TokenKind::False => next.emit(Instruction::False),
                TokenKind::Char => next.character(),
                TokenKind::Number => next.number(),
                TokenKind::String => next.report(
                    "String literals are only allowed in the data section"@,
                ),
                _ => next.report("Invalid operand, expected literal value or variable name"@),
            },
            1,
            0,
        ),
{
    reveal(State::number);
    reveal(State::character);
    match next.previous.kind {
        TokenKind::Identifier => {
            lemma_variable(next, false);
        },
        TokenKind::True => {
            lemma_emit(next, Instruction::True);
        },
        TokenKind::False => {
            lemma_emit(next, Instruction::False);
        },
        TokenKind::Char => {
            if next.previous.lexeme.len() > 1 {
                lemma_make_constant(next, Value::Char(next.previous.lexeme[1]));
            } else {
                lemma_report_at(next, next.previous, "Invalid token of kind Char"@, 1, 0);
            }
        },
        TokenKind::Number => {
            match literal(next.previous.lexeme) {
                Ok(LiteralModel::U64(v)) => {
                    lemma_make_constant(next, Value::U64(v));
                },
                Ok(LiteralModel::I64(v)) => {
                    lemma_make_constant(next, Value::I64(v));
                },
                Ok(LiteralModel::F64(numeral)) => {
                    lemma_make_float(next, numeral);
                },
                Err(message) => {
                    lemma_report_at(next, next.previous, message, 1, 0);
                },
            }
        },
        TokenKind::String => {
            lemma_report_at(
                next,
                next.previous,
                "String literals are only allowed in the data section"@,
                1,
                0,
            );
        },
        _ => {
            lemma_report_at(
                next,
                next.previous,
                "Invalid operand, expected literal value or variable name"@,
                1,
                0,
            );
        },
    }
}

proof fn lemma_operand(state: State)
    requires
        sound(state),
    ensures
        leaves(state, state.operand(), 1, 0),
{
    reveal(State::operand);
    lemma_advance(state);
    let next = state.advance();
    lemma_loaded(next);
    lemma_then(state, next, state.operand(), 0, 0, 1, 0, 0);
}

proof fn lemma_unary(state: State, instruction: Instruction)
    requires
        sound(state),
        stack_effect(instruction) == 0,
    ensures
        leaves(state, state.advance().operand().emit(instruction), 1, 0),
{
    lemma_advance(state);
    let read = state.advance();
    lemma_operand(read);
    let loaded = read.operand();
    lemma_emit(loaded, instruction);
    lemma_then(state, read, loaded, 0, 0, 1, 0, 0);
    lemma_then(state, loaded, loaded.emit(instruction), 1, 0, 0, 0, 0);
}

proof fn lemma_expression(state: State)
    requires
        sound(state),
    ensures
        leaves(state, state.expression(), 1, 0),
{
    reveal(State::expression);
    reveal(State::unary_expression);
    if state.starts_unary() {
        match state.current.kind {
            TokenKind::Bang => {
                lemma_unary(state, Instruction::Not);
            },
            TokenKind::Minus => {
                lemma_unary(state, Instruction::Negate);
            },
            TokenKind::Star => {
                lemma_report_at(
                    state,
                    state.current,
                    "Dereference expressions are not supported yet"@,
                    1,
                    0,
                );
            },
            _ => {
                lemma_report_at(
                    state,
                    state.current,
                    "Reference expressions are not supported yet"@,
                    1,
                    0,
                );
            },
        }
    } else if state.current.kind == TokenKind::Call {
        lemma_report_at(state, state.current, "Call expressions are not supported yet"@, 1, 0);
    } else if state.current.kind == TokenKind::Scan {
        lemma_report_at(state, state.current, "Scan expressions are not supported yet"@, 1, 0);
    } else {
        lemma_operand(state);
        let left = state.operand();
        match operator_code(left.current.kind) {
            Some((instruction, negated)) => {
                lemma_advance(left);
                let read = left.advance();
                lemma_operand(read);
                let right = read.operand();
                lemma_emit(right, instruction);
                let both = right.emit(instruction);
                lemma_then(state, left, read, 1, 0, 0, 0, 0);
                lemma_then(state, read, right, 1, 0, 1, 0, 0);
                lemma_then(state, right, both, 2, 0, -1, -1, 0);
                if negated {
                    lemma_emit(both, Instruction::Not);
                    lemma_then(state, both, both.emit(Instruction::Not), 1, 0, 0, 0, 0);
                }
            },
            None => {},
        }
    }
}

proof fn lemma_print_statement(state: State)
    requires
        sound(state),
    ensures
        leaves(state, state.print_statement(), 0, 0),
{
    reveal(State::print_statement);
    lemma_expression(state);
    let value = state.expression();
    let print = Instruction::Print(state.previous.kind == TokenKind::PrintLn);
    lemma_emit(value, print);
    lemma_then(state, value, value.emit(print), 1, 0, -1, -1, 0);
}

proof fn lemma_jump(state: State, conditional: bool)
    requires
        sound(state),
    ensures
        leaves(
            state,
            state.jump(conditional),
            if conditional {
                -1
            } else {
                0
            },
            if conditional {
                -1
            } else {
                0
            },
        ),
{
    reveal(State::jump);
    reveal(State::emit);
    lemma_grows_push(state.chunk.code, Instruction::JumpIf(0));
    lemma_grows_push(state.chunk.code, Instruction::Goto(0));
}

proof fn lemma_goto_statement(state: State)
    requires
        sound(state),
    ensures
        leaves(state, state.goto_statement(), 0, 0),
{
    reveal(State::goto_statement);
    let message = "Missing label for 'goto' statement"@;
    lemma_consume(state, TokenKind::Identifier, message);
    let read = state.consume(TokenKind::Identifier, message);
    lemma_jump(read, false);
    lemma_then(state, read, read.jump(false), 0, 0, 0, 0, 0);
}

proof fn lemma_if_statement(state: State)
    requires
        sound(state),
    ensures
        leaves(state, state.if_statement(), 0, 0),
{
    reveal(State::if_statement);
    let negate = state.previous.kind == TokenKind::IfFalse;
    let name = if negate {
        "ifFalse"@
    } else {
        "if"@
    };
    lemma_expression(state);
    let condition = state.expression();
    let no_goto = "Missing 'goto' keyword after "@ + name + " statement"@;
    lemma_consume(condition, TokenKind::Goto, no_goto);
    let behind = condition.consume(TokenKind::Goto, no_goto);
    let no_label = "Missing label after "@ + name + " statement"@;
    lemma_consume(behind, TokenKind::Identifier, no_label);
    let read = behind.consume(TokenKind::Identifier, no_label);
    lemma_then(state, condition, behind, 1, 0, 0, 0, 0);
    lemma_then(state, behind, read, 1, 0, 0, 0, 0);
    if negate {
        lemma_emit(read, Instruction::Not);
        let inverted = read.emit(Instruction::Not);
        lemma_then(state, read, inverted, 1, 0, 0, 0, 0);
        lemma_jump(inverted, true);
        lemma_then(state, inverted, inverted.jump(true), 1, 0, -1, -1, 0);
    } else {
        lemma_jump(read, true);
        lemma_then(state, read, read.jump(true), 1, 0, -1, -1, 0);
    }
}

proof fn lemma_assigned(state: State)
    requires
        sound(state),
    ensures
        leaves(state, state.assigned(), -1, -1),
{
    reveal(State::assigned);
    let message = "Assignment statement expected, but no '=' was found"@;
    lemma_consume(state, TokenKind::Equal, message);
    let read = state.consume(TokenKind::Equal, message);
    lemma_expression(read);
    let value = read.expression();
    lemma_emit(value, Instruction::Assign);
    lemma_then(state, read, value, 0, 0, 1, 0, 0);
    lemma_then(state, value, value.emit(Instruction::Assign), 1, 0, -2, -2, -1);
}

proof fn lemma_assignment(state: State)
    requires
        sound(state),
    ensures
        leaves(state, state.assignment(), 0, 0),
{
    reveal(State::assignment);
    let dereference = state.previous.kind == TokenKind::Star;
    let message = "A variable is required to be dereferenced"@;
    lemma_consume(state, TokenKind::Identifier, message);
    lemma_stay(state);
    let named = if dereference {
        state.consume(TokenKind::Identifier, message)
    } else {
        state
    };
    lemma_variable(named, true);
    let target = named.variable(true);
    if named.chunk.name_index(named.previous.lexeme) is None {
        reveal(State::variable);
        lemma_report_at(
            named,
            named.previous,
            "The program uses too many variables (65535+)"@,
            0,
            0,
        );
        lemma_then(state, named, target, 0, 0, 0, 0, 0);
    } else {
        lemma_then(state, named, target, 0, 0, 1, 0, 0);
        if target.current.kind == TokenKind::LeftBracket {
            lemma_advance(target);
            let inside = target.advance();
            lemma_then(state, target, inside, 1, 0, 0, 0, 0);
            if dereference {
                let refused =
                    "Dereferenced variables can not be accessed via array indexes in the same statement"@;
                lemma_report_at(inside, inside.previous, refused, -1, -1);
                lemma_then(state, inside, inside.report(refused), 1, 0, -1, -1, 0);
            } else {
                let bracket = "Missing ']': Array accesses must be enclosed by brackets"@;
                lemma_consume(inside, TokenKind::RightBracket, bracket);
                let closed = inside.consume(TokenKind::RightBracket, bracket);
                lemma_then(state, inside, closed, 1, 0, 0, 0, 0);
                lemma_assigned(closed);
                lemma_then(state, closed, closed.assigned(), 1, 0, -1, -1, 0);
            }
        } else {
            lemma_assigned(target);
            lemma_then(state, target, target.assigned(), 1, 0, -1, -1, 0);
        }
    }
}

proof fn lemma_label_or_assignment(state: State)
    requires
        sound(state),
    ensures
        leaves(state, state.label_or_assignment(), 0, 0),
{
    reveal(State::label_or_assignment);
    if state.current.kind == TokenKind::Colon {
        lemma_advance(state);
        let next = state.advance();
        if lookup(next.labels, state.previous.lexeme, 0) is Some {
            let message = "Redefinition of labels is not allowed"@;
            lemma_report_at(next, state.previous, message, 0, 0);
            lemma_then(state, next, next.report_at(state.previous, message), 0, 0, 0, 0, 0);
        }
    } else {
        lemma_assignment(state);
    }
}

proof fn lemma_line_end(state: State)
    requires
        sound(state),
    ensures
        leaves(state, state.line_end(), 0, 0),
{
    reveal(State::line_end);
    lemma_stay(state);
    lemma_report_at(
        state,
        state.current,
        "Three-address code programs support at most binary expressions"@,
        0,
        0,
    );
    lemma_report_at(state, state.current, "There must be at most one statement per line"@, 0, 0);
}

/// What a statement does behind its first token, up to the check of
/// what follows it.
pub open spec fn dispatched(next: State) -> State {
    match next.previous.kind {
        TokenKind::Print => next.print_statement(),
        TokenKind::PrintLn => next.print_statement(),
        TokenKind::If => next.if_statement(),
        TokenKind::IfFalse => next.if_statement(),
        TokenKind::Goto => next.goto_statement(),
        TokenKind::Halt => next.emit(Instruction::Halt),
        TokenKind::Star => next.assignment(),
        TokenKind::Identifier => next.label_or_assignment(),
        TokenKind::NewLine => next,
        TokenKind::Eof => next,
        TokenKind::Equal => next.report("Assignments must have a variable on the left side"@),
        TokenKind::Scan => next.report("Return value of scan must be assigned to a variable"@),
        kind => next.report("Invalid statement with token "@ + kind.name_spec()),
    }
}

proof fn lemma_dispatched(next: State)
    requires
        sound(next),
    ensures
        leaves(next, dispatched(next), 0, 0),
{
    match next.previous.kind {
        TokenKind::Print => {
            lemma_print_statement(next);
        },
        TokenKind::PrintLn => {
            lemma_print_statement(next);
        },
        TokenKind::If => {
            lemma_if_statement(next);
        },
        TokenKind::IfFalse => {
            lemma_if_statement(next);
        },
        TokenKind::Goto => {
            lemma_goto_statement(next);
        },
        TokenKind::Halt => {
            lemma_emit(next, Instruction::Halt);
        },
        TokenKind::Star => {
            lemma_assignment(next);
        },
        TokenKind::Identifier => {
            lemma_label_or_assignment(next);
        },
        TokenKind::NewLine => {
            lemma_stay(next);
        },
        TokenKind::Eof => {
            lemma_stay(next);
        },
        TokenKind::Equal => {
            lemma_report_at(
                next,
                next.previous,
                "Assignments must have a variable on the left side"@,
                0,
                0,
            );
        },
        TokenKind::Scan => {
            lemma_report_at(
                next,
                next.previous,
                "Return value of scan must be assigned to a variable"@,
                0,
                0,
            );
        },
        kind => {
            lemma_report_at(
                next,
                next.previous,
                "Invalid statement with token "@ + kind.name_spec(),
                0,
                0,
            );
        },
    }
}

/// A statement leaves the stack as high as it found it, never takes it
/// lower on the way, and reads at least one token.
pub proof fn lemma_statement(state: State)
    requires
        sound(state),
    ensures
        leaves(state, state.statement(), 0, 0),
        stream_ok(state) && state.current.kind != TokenKind::Eof ==> state.statement().measure()
            < state.measure(),
        state.statement() == if state.advance().previous.kind == TokenKind::NewLine
            || state.advance().previous.kind == TokenKind::Eof {
            state.advance()
        } else {
            dispatched(state.advance()).line_end()
        },
{
    reveal(State::statement);
    lemma_advance(state);
    let next = state.advance();
    lemma_dispatched(next);
    let done = dispatched(next);
    lemma_line_end(done);
    lemma_then(next, done, done.line_end(), 0, 0, 0, 0, 0);
    lemma_stay(next);
    lemma_then(state, next, state.statement(), 0, 0, 0, 0, 0);
}

proof fn lemma_skip_line(state: State)
    requires
        sound(state),
    ensures
        leaves(state, state.skip_line(), 0, 0),
    decreases state.measure(),
{
    reveal(State::skip_line);
    lemma_stay(state);
    if !(state.current.kind == TokenKind::Eof || state.previous.kind == TokenKind::NewLine) {
        lemma_advance(state);
        let next = state.advance();
        if next.measure() < state.measure() {
            lemma_skip_line(next);
            lemma_then(state, next, next.skip_line(), 0, 0, 0, 0, 0);
        }
    }
}

/// A statement and the recovery behind it, where it failed.
pub open spec fn recovered(state: State) -> State {
    if state.statement().panic_mode {
        state.statement().synchronize()
    } else {
        state.statement()
    }
}

pub proof fn lemma_recovered(state: State)
    requires
        sound(state),
    ensures
        leaves(state, recovered(state), 0, 0),
        stream_ok(state) && state.current.kind != TokenKind::Eof ==> recovered(state).measure()
            < state.measure(),
{
    reveal(State::synchronize);
    lemma_statement(state);
    let compiled = state.statement();
    if compiled.panic_mode {
        let calm = State { panic_mode: false, ..compiled };
        lemma_skip_line(calm);
        assert(leaves(compiled, calm, 0, 0));
        lemma_then(compiled, calm, calm.skip_line(), 0, 0, 0, 0, 0);
        lemma_then(state, compiled, recovered(state), 0, 0, 0, 0, 0);
    }
}

proof fn lemma_statements(state: State)
    requires
        sound(state),
    ensures
        leaves(state, state.statements(), 0, 0),
    decreases state.measure(),
{
    reveal(State::statements);
    if state.current.kind == TokenKind::Eof {
        lemma_advance(state);
    } else {
        lemma_recovered(state);
        let next = recovered(state);
        if next.measure() < state.measure() {
            lemma_statements(next);
            lemma_then(state, next, next.statements(), 0, 0, 0, 0, 0);
        }
    }
}

proof fn lemma_patched(code: Seq<Instruction>, at: int, target: u16)
    ensures
        same_effects(code, patched(code, at, target)),
{
}

proof fn lemma_resolve(state: State, from: int)
    ensures
        same_effects(state.chunk.code, state.resolve(from).chunk.code),
    decreases state.pending.len() - from,
{
    reveal(State::resolve);
    if 0 <= from < state.pending.len() {
        let jump = state.pending[from];
        match lookup(state.labels, jump.label, 0) {
            Some(target) => {
                let code = patched(state.chunk.code, jump.at as int, target as u16);
                lemma_patched(state.chunk.code, jump.at as int, target as u16);
                lemma_resolve(
                    State { chunk: ChunkModel { code, ..state.chunk }, ..state },
                    from + 1,
                );
            },
            None => {
                if referred(state.pending, jump.label, from) {
                    lemma_resolve(state, from + 1);
                } else {
                    lemma_resolve(
                        State {
                            reports: state.reports.push(
                                error_text(
                                    state.previous,
                                    missing_label_text(jump.label, jump.line),
                                ),
                            ),
                            had_error: true,
                            ..state
                        },
                        from + 1,
                    );
                }
            },
        }
    }
}

/// Resolving the jumps takes no error back.
proof fn lemma_resolve_keeps_errors(state: State, from: int)
    ensures
        state.had_error ==> state.resolve(from).had_error,
    decreases state.pending.len() - from,
{
    reveal(State::resolve);
    if 0 <= from < state.pending.len() {
        let jump = state.pending[from];
        match lookup(state.labels, jump.label, 0) {
            Some(target) => {
                let code = patched(state.chunk.code, jump.at as int, target as u16);
                lemma_resolve_keeps_errors(
                    State { chunk: ChunkModel { code, ..state.chunk }, ..state },
                    from + 1,
                );
            },
            None => {
                if referred(state.pending, jump.label, from) {
                    lemma_resolve_keeps_errors(state, from + 1);
                } else {
                    lemma_resolve_keeps_errors(
                        State {
                            reports: state.reports.push(
                                error_text(
                                    state.previous,
                                    missing_label_text(jump.label, jump.line),
                                ),
                            ),
                            had_error: true,
                            ..state
                        },
                        from + 1,
                    );
                }
            },
        }
    }
}

/// What a program pushes, it takes, and it takes nothing that it did not
/// push: where `tokens` compile without an error, the effects of the
/// instructions that were added to `chunk` add up to nothing, and up to
/// no instruction do they add up to less than nothing.
pub proof fn lemma_compiled_code_is_balanced(tokens: Seq<TokenModel>, chunk: ChunkModel)
    ensures
        !compiled(tokens, chunk).had_error ==> net_effect(compiled(tokens, chunk).chunk.code)
            == net_effect(chunk.code),
        !compiled(tokens, chunk).had_error ==> forall|i: int|
            chunk.code.len() <= i <= compiled(tokens, chunk).chunk.code.len() ==> net_effect(
                #[trigger] compiled(tokens, chunk).chunk.code.take(i),
            ) >= net_effect(chunk.code),
{
    reveal(State::end);
    let start = State::initial(tokens, chunk);
    lemma_advance(start);
    let first = start.advance();
    lemma_statements(first);
    let body = first.statements();
    lemma_then(start, first, body, 0, 0, 0, 0, 0);
    lemma_emit(body, Instruction::Halt);
    let halted = if body.chunk.code.len() > 0 && body.chunk.code.last() == Instruction::Halt {
        body
    } else {
        body.emit(Instruction::Halt)
    };
    lemma_stay(body);
    lemma_then(start, body, halted, 0, 0, 0, 0, 0);
    lemma_resolve(halted, 0);
    lemma_resolve_keeps_errors(halted, 0);
    let end = halted.resolve(0);
    assert(end == compiled(tokens, chunk));
    if !end.had_error {
        lemma_same_effects(halted.chunk.code, end.chunk.code);
        assert forall|i: int| chunk.code.len() <= i <= end.chunk.code.len() implies net_effect(
            #[trigger] end.chunk.code.take(i),
        ) >= net_effect(chunk.code) by {
            assert(net_effect(halted.chunk.code.take(i)) >= net_effect(chunk.code));
        }
    }
}

/// The effect of an instruction is what the machine does with it: a
/// step that does not fail changes the height of the stack by the effect
/// of its instruction. Two things come on top: a variable that is new
/// gets its slot, and the result of an operator on two floats is pushed
/// by the host.
pub proof fn lemma_effect_is_the_change_in_height(machine: Machine, instruction: Instruction)
    requires
        machine.frames.len() > 0,
        !(instruction is Call),
        !(instruction is Return),
        !(machine.execute(instruction).1 is Fault),
    ensures
        machine.execute(instruction).0.stack.len() == machine.stack.len() + stack_effect(
            instruction,
        ) + (if instruction is GetOrCreateVar && !machine.frames.last().st.contains_key(
            instruction->GetOrCreateVar_0,
        ) {
            1int
        } else {
            0int
        }) - (if machine.execute(instruction).1 is Float {
            1int
        } else {
            0int
        }),
{
    reveal(Machine::execute);
    reveal(Machine::binary);
    reveal(Machine::unary);
    reveal(Machine::print);
    reveal(Machine::pop);
    reveal(Machine::jump_if);
    reveal(Machine::assign);
    reveal(Machine::get_var);
    reveal(Machine::get_or_create_var);
}

} // verus!
