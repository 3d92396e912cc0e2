//! Errors and the wording of diagnostics.

use vstd::prelude::*;
use vstd::string::*;
use crate::text::{decimal, push_decimal};
use crate::token::{Token, TokenKind, TokenModel};

verus! {

/// Why interpreting a source failed.
#[derive(Clone, Copy, Debug, PartialEq, Eq, Structural)]
pub enum TACError {
    CompileError,
    RuntimeError,
}

pub type TACResult<T> = Result<T, TACError>;

/// Where a diagnostic says that it stands: nowhere for an `Error` token,
/// whose message says it, `at end` for `Eof`, else at the lexeme.
pub open spec fn place_text(token: TokenModel) -> Seq<char> {
    match token.kind {
        TokenKind::Eof => " at end"@,
        TokenKind::Error => Seq::empty(),
        _ => " at '"@ + token.lexeme + "'"@,
    }
}

/// The diagnostic for `message` at `token`:
/// `[line N] Error at '<lexeme>': <message>`.
pub open spec fn error_text(token: TokenModel, message: Seq<char>) -> Seq<char> {
    "[line "@ + decimal(token.line as nat) + "] Error"@ + place_text(token) + ": "@ + message
}

/// The line of a compile diagnostic for `message` at `token`.
pub fn error_at(token: Token, message: &str) -> (text: String)
    ensures
        text@ == error_text(token@, message@),
{
    let mut text = String::from_str("[line ");
    push_decimal(&mut text, token.line as u64);
    text.append("] Error");
    let ghost head = text@;
    match token.kind {
        TokenKind::Eof => {
            text.append(" at end");
        },
        TokenKind::Error => {
            assert(text@ =~= head + place_text(token@));
        },
        _ => {
            text.append(" at '");
            text.append(token.lexeme);
            text.append("'");
            assert(text@ =~= head + place_text(token@));
        },
    }
    text.append(": ");
    text.append(message);
    text
}

/// The second line of a run-time diagnostic: `[line N] in script`.
pub open spec fn script_line_text(line: usize) -> Seq<char> {
    "[line "@ + decimal(line as nat) + "] in script"@
}

/// The second line of a run-time diagnostic, behind the message.
pub fn script_line(line: usize) -> (text: String)
    ensures
        text@ == script_line_text(line),
{
    let mut text = String::from_str("[line ");
    push_decimal(&mut text, line as u64);
    text.append("] in script");
    text
}

} // verus!
