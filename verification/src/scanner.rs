//! The scanner: from source text to tokens, one at a time.

use vstd::prelude::*;
use vstd::string::*;
use crate::slicing::{byte_offset, lemma_offset_bounds, lemma_offset_step, slice, utf8_width};
use crate::text::{chars_of, same_text};
use crate::token::{Token, TokenKind, TokenModel};

verus! {

/// The classes of characters that the scanner reads runs of.
#[derive(Clone, Copy, Debug, PartialEq, Eq, Structural)]
pub enum CharClass {
    /// `0` to `9`.
    Digit,
    /// An ASCII letter or digit.
    Alphanumeric,
    /// An ASCII letter or digit, or `_`.
    Word,
    /// Anything but `"`.
    NotQuote,
    /// Anything but `'`.
    NotApostrophe,
    /// Anything but a line feed.
    NotNewline,
}

pub open spec fn is_digit(c: char) -> bool {
    '0' <= c <= '9'
}

pub open spec fn is_alpha(c: char) -> bool {
    'a' <= c <= 'z' || 'A' <= c <= 'Z'
}

/// Whether `c` is white space: a character with the Unicode property
/// `White_Space`.
pub open spec fn is_space(c: char) -> bool {
    let u = c as u32;
    0x09 <= u <= 0x0D || u == 0x20 || u == 0x85 || u == 0xA0 || u == 0x1680 || 0x2000 <= u
        <= 0x200A || u == 0x2028 || u == 0x2029 || u == 0x202F || u == 0x205F || u == 0x3000
}

pub open spec fn in_class(class: CharClass, c: char) -> bool {
    match class {
        CharClass::Digit => is_digit(c),
        CharClass::Alphanumeric => is_digit(c) || is_alpha(c),
        CharClass::Word => is_digit(c) || is_alpha(c) || c == '_',
        CharClass::NotQuote => c != '"',
        CharClass::NotApostrophe => c != '\'',
        CharClass::NotNewline => c != '\n',
    }
}

/// The end of the longest run of characters of `class` that starts at
/// `from`: the first position at or after `from` that holds a character
/// outside the class, or the length of `chars`.
pub open spec fn run_end(chars: Seq<char>, from: int, class: CharClass) -> int
    decreases chars.len() - from,
{
    if 0 <= from < chars.len() && in_class(class, chars[from]) {
        run_end(chars, from + 1, class)
    } else {
        from
    }
}

/// Where the next token starts: the position reached from `from` after
/// white space other than a line feed and, behind it, a comment, which
/// runs from `#` up to the line feed.
pub open spec fn skip_end(chars: Seq<char>, from: int) -> int
    decreases chars.len() - from,
{
    if 0 <= from < chars.len() && chars[from] != '\n' && is_space(chars[from]) {
        skip_end(chars, from + 1)
    } else if 0 <= from < chars.len() && chars[from] == '#' {
        run_end(chars, from + 1, CharClass::NotNewline)
    } else {
        from
    }
}

/// The number of line feeds in `chars` from `from` up to `to`.
pub open spec fn newlines(chars: Seq<char>, from: int, to: int) -> nat
    decreases to - from,
{
    if to <= from {
        0
    } else {
        newlines(chars, from, to - 1) + if 0 < to <= chars.len() && chars[to - 1] == '\n' {
            1nat
        } else {
            0nat
        }
    }
}

/// The kind that `lexeme` has as a keyword.
pub open spec fn keyword(lexeme: Seq<char>) -> Option<TokenKind> {
    if lexeme == "if"@ {
        Some(TokenKind::If)
    } else if lexeme == "ifFalse"@ {
        Some(TokenKind::IfFalse)
    } else if lexeme == "goto"@ {
        Some(TokenKind::Goto)
    } else if lexeme == "param"@ {
        Some(TokenKind::Param)
    } else if lexeme == "call"@ {
        Some(TokenKind::Call)
    } else if lexeme == "return"@ {
        Some(TokenKind::Return)
    } else if lexeme == "true"@ {
        Some(TokenKind::True)
    } else if lexeme == "false"@ {
        Some(TokenKind::False)
    } else if lexeme == "print"@ {
        Some(TokenKind::Print)
    } else if lexeme == "println"@ {
        Some(TokenKind::PrintLn)
    } else if lexeme == "halt"@ {
        Some(TokenKind::Halt)
    } else if lexeme == "scan"@ {
        Some(TokenKind::Scan)
    } else if lexeme == "u64"@ {
        Some(TokenKind::U64KW)
    } else if lexeme == "i64"@ {
        Some(TokenKind::I64KW)
    } else if lexeme == "f64"@ {
        Some(TokenKind::F64KW)
    } else if lexeme == "char"@ {
        Some(TokenKind::CharKW)
    } else if lexeme == "bool"@ {
        Some(TokenKind::BoolKW)
    } else {
        None
    }
}

/// A token as the scanner finds it at a position: its kind, where it
/// ends, and for an `Error` the message.
pub struct Lexed {
    pub kind: TokenKind,
    pub end: int,
    pub message: Seq<char>,
}

pub open spec fn plain(kind: TokenKind, end: int) -> Lexed {
    Lexed { kind, end, message: Seq::empty() }
}

pub open spec fn failed(end: int, message: Seq<char>) -> Lexed {
    Lexed { kind: TokenKind::Error, end, message }
}

/// `one` followed by `second` makes `both`; `one` alone makes `single`.
pub open spec fn one_or_two(
    chars: Seq<char>,
    at: int,
    second: char,
    both: TokenKind,
    single: TokenKind,
) -> Lexed {
    if at + 1 < chars.len() && chars[at + 1] == second {
        plain(both, at + 2)
    } else {
        plain(single, at + 1)
    }
}

/// The token that starts at `at`, a position inside `chars` that holds
/// neither white space nor the start of a comment.
pub open spec fn lex(chars: Seq<char>, at: int) -> Lexed
    recommends
        0 <= at < chars.len(),
{
    match chars[at] {
        '\n' => plain(TokenKind::NewLine, at + 1),
        '(' => plain(TokenKind::LeftParen, at + 1),
        ')' => plain(TokenKind::RightParen, at + 1),
        '{' => plain(TokenKind::LeftBrace, at + 1),
        '}' => plain(TokenKind::RightBrace, at + 1),
        '[' => plain(TokenKind::LeftBracket, at + 1),
        ']' => plain(TokenKind::RightBracket, at + 1),
        ';' => plain(TokenKind::Semicolon, at + 1),
        ',' => plain(TokenKind::Comma, at + 1),
        '.' => plain(TokenKind::Dot, at + 1),
        '-' => plain(TokenKind::Minus, at + 1),
        '+' => plain(TokenKind::Plus, at + 1),
        '/' => plain(TokenKind::Slash, at + 1),
        '*' => plain(TokenKind::Star, at + 1),
        '%' => plain(TokenKind::Percent, at + 1),
        '&' => plain(TokenKind::Ampersand, at + 1),
        ':' => plain(TokenKind::Colon, at + 1),
        '!' => one_or_two(chars, at, '=', TokenKind::BangEqual, TokenKind::Bang),
        '=' => one_or_two(chars, at, '=', TokenKind::EqualEqual, TokenKind::Equal),
        '<' => if at + 1 < chars.len() && chars[at + 1] == '<' {
            plain(TokenKind::ShiftLeft, at + 2)
        } else {
            one_or_two(chars, at, '=', TokenKind::LessEqual, TokenKind::Less)
        },
        '>' => if at + 1 < chars.len() && chars[at + 1] == '>' {
            plain(TokenKind::ShiftRight, at + 2)
        } else {
            one_or_two(chars, at, '=', TokenKind::GreaterEqual, TokenKind::Greater)
        },
        '"' => {
            let close = run_end(chars, at + 1, CharClass::NotQuote);
            if close >= chars.len() {
                failed(close, "Unterminated string"@)
            } else {
                plain(TokenKind::String, close + 1)
            }
        },
        '\'' => {
            let close = run_end(chars, at + 1, CharClass::NotApostrophe);
            if close >= chars.len() {
                failed(close, "Unterminated character"@)
            } else if close - (at + 1) > 1 {
                failed(close + 1, "Character literal may only contain one character"@)
            } else {
                plain(TokenKind::Char, close + 1)
            }
        },
        c => if is_digit(c) {
            let whole = run_end(chars, at + 1, CharClass::Digit);
            let fraction = if whole < chars.len() && chars[whole] == '.' {
                run_end(chars, whole + 1, CharClass::Digit)
            } else {
                whole
            };
            plain(TokenKind::Number, run_end(chars, fraction, CharClass::Alphanumeric))
        } else if is_alpha(c) || c == '_' {
            let end = run_end(chars, at + 1, CharClass::Word);
            match keyword(chars.subrange(at, end)) {
                Some(kind) => plain(kind, end),
                None => plain(TokenKind::Identifier, end),
            }
        } else {
            failed(at + 1, "Unexpected character"@)
        },
    }
}

/// The state of a scanner in contracts: the characters of the source,
/// the position of the next one to read, and the line that position is
/// on.
pub struct Cursor {
    pub chars: Seq<char>,
    pub at: int,
    pub line: int,
}

impl Cursor {
    /// The cursor at the start of `source`.
    pub open spec fn start(source: Seq<char>) -> Cursor {
        Cursor { chars: source, at: 0, line: 1 }
    }

    pub open spec fn valid(self) -> bool {
        0 <= self.at <= self.chars.len() && 1 <= self.line <= self.at + 1
    }

    /// The next token, and the cursor behind it. At the end of the
    /// source the token is `Eof`. A `NewLine` token carries the line that
    /// it ends; every other token carries the line that its last
    /// character is on.
    pub open spec fn scan(self) -> (TokenModel, Cursor) {
        let at = skip_end(self.chars, self.at);
        if at >= self.chars.len() {
            (
                TokenModel { kind: TokenKind::Eof, lexeme: Seq::empty(), line: self.line as usize },
                Cursor { at, ..self },
            )
        } else {
            let lexed = lex(self.chars, at);
            let line = self.line + newlines(self.chars, at, lexed.end);
            (
                TokenModel {
                    kind: lexed.kind,
                    lexeme: if lexed.kind == TokenKind::Error {
                        lexed.message
                    } else {
                        self.chars.subrange(at, lexed.end)
                    },
                    line: if lexed.kind == TokenKind::NewLine {
                        self.line as usize
                    } else {
                        line as usize
                    },
                },
                Cursor { at: lexed.end, line, ..self },
            )
        }
    }

    /// The tokens from the cursor on, up to and with the first `Eof`.
    pub open spec fn tokens(self) -> Seq<TokenModel>
        decreases self.chars.len() - self.at,
    {
        let token = self.scan().0;
        let next = self.scan().1;
        if token.kind != TokenKind::Eof && self.at < next.at <= self.chars.len() {
            seq![token] + (Cursor { chars: self.chars, ..next }).tokens()
        } else {
            seq![token]
        }
    }
}

impl Cursor {
    /// How the stream of tokens unfolds: it starts with the next token
    /// and goes on with the stream behind it; it ends with `Eof`, behind
    /// which scanning gives the same `Eof` again. Lines never fall.
    pub proof fn lemma_scan(self)
        requires
            self.valid(),
            self.chars.len() < usize::MAX,
        ensures
            self.scan().1.valid(),
            self.scan().1.chars == self.chars,
            self.line <= self.scan().0.line <= self.scan().1.line,
            self.tokens().len() >= 1,
            self.tokens()[0] == self.scan().0,
            self.tokens().last().kind == TokenKind::Eof,
            self.scan().0.kind != TokenKind::Eof ==> self.tokens() == seq![self.scan().0]
                + self.scan().1.tokens() && self.at < self.scan().1.at,
            self.scan().0.kind == TokenKind::Eof ==> self.tokens() == seq![self.scan().0]
                && self.scan().1.tokens() == seq![self.scan().0],
        decreases self.chars.len() - self.at,
    {
        let token = self.scan().0;
        let next = self.scan().1;
        let at = skip_end(self.chars, self.at);
        lemma_skip_end(self.chars, self.at);
        if at >= self.chars.len() {
            assert(skip_end(next.chars, next.at) == next.at);
            assert(next.scan().0 == token);
        } else {
            lemma_lex_advances(self.chars, at);
            lemma_newlines_bound(self.chars, at, lex(self.chars, at).end);
            lemma_lex_kind(self.chars, at);
            assert(next == Cursor { chars: self.chars, ..next });
            next.lemma_scan();
            assert((seq![token] + next.tokens()).last() == next.tokens().last());
        }
    }
}

/// No token that starts inside the text is `Eof`.
pub proof fn lemma_lex_kind(chars: Seq<char>, at: int)
    requires
        0 <= at < chars.len(),
    ensures
        lex(chars, at).kind != TokenKind::Eof,
{
}

/// The tokens of `source`, up to and with `Eof`.
pub open spec fn tokens_of(source: Seq<char>) -> Seq<TokenModel> {
    Cursor::start(source).tokens()
}

/// Line feeds add up over adjoining ranges.
pub proof fn lemma_newlines_split(chars: Seq<char>, from: int, mid: int, to: int)
    requires
        from <= mid <= to,
    ensures
        newlines(chars, from, to) == newlines(chars, from, mid) + newlines(chars, mid, to),
    decreases to - mid,
{
    if mid < to {
        lemma_newlines_split(chars, from, mid, to - 1);
    }
}

/// A range holds at most as many line feeds as characters.
pub proof fn lemma_newlines_bound(chars: Seq<char>, from: int, to: int)
    requires
        from <= to,
    ensures
        newlines(chars, from, to) <= to - from,
    decreases to - from,
{
    if from < to {
        lemma_newlines_bound(chars, from, to - 1);
    }
}

/// A run ends at or after its start, inside the text, and every character
/// of it is of the class.
pub proof fn lemma_run_end(chars: Seq<char>, from: int, class: CharClass)
    requires
        0 <= from <= chars.len(),
    ensures
        from <= run_end(chars, from, class) <= chars.len(),
        forall|k: int| from <= k < run_end(chars, from, class) ==> in_class(class, chars[k]),
        run_end(chars, from, class) < chars.len() ==> !in_class(
            class,
            chars[run_end(chars, from, class)],
        ),
    decreases chars.len() - from,
{
    if from < chars.len() && in_class(class, chars[from]) {
        lemma_run_end(chars, from + 1, class);
    }
}

/// Skipping ends at or after its start, inside the text, and passes no
/// line feed.
pub proof fn lemma_skip_end(chars: Seq<char>, from: int)
    requires
        0 <= from <= chars.len(),
    ensures
        from <= skip_end(chars, from) <= chars.len(),
        forall|k: int| from <= k < skip_end(chars, from) ==> chars[k] != '\n',
        newlines(chars, from, skip_end(chars, from)) == 0,
    decreases chars.len() - from,
{
    let end = skip_end(chars, from);
    if from < chars.len() && chars[from] != '\n' && is_space(chars[from]) {
        lemma_skip_end(chars, from + 1);
        lemma_newlines_split(chars, from, from + 1, end);
        assert(newlines(chars, from, from) == 0);
    } else if from < chars.len() && chars[from] == '#' {
        lemma_run_end(chars, from + 1, CharClass::NotNewline);
        lemma_no_newlines(chars, from, end);
    } else {
    }
}

/// A range without a line feed counts none.
pub proof fn lemma_no_newlines(chars: Seq<char>, from: int, to: int)
    requires
        0 <= from <= to <= chars.len(),
        forall|k: int| from <= k < to ==> chars[k] != '\n',
    ensures
        newlines(chars, from, to) == 0,
    decreases to - from,
{
    if from < to {
        lemma_no_newlines(chars, from, to - 1);
    }
}

/// Every token but `Eof` takes at least one character, and ends inside
/// the text.
pub proof fn lemma_lex_advances(chars: Seq<char>, at: int)
    requires
        0 <= at < chars.len(),
    ensures
        at < lex(chars, at).end <= chars.len(),
{
    lemma_run_end(chars, at + 1, CharClass::NotQuote);
    lemma_run_end(chars, at + 1, CharClass::NotApostrophe);
    lemma_run_end(chars, at + 1, CharClass::Word);
    lemma_run_end(chars, at + 1, CharClass::Digit);
    let whole = run_end(chars, at + 1, CharClass::Digit);
    if whole < chars.len() {
        lemma_run_end(chars, whole + 1, CharClass::Digit);
        lemma_run_end(chars, run_end(chars, whole + 1, CharClass::Digit), CharClass::Alphanumeric);
    }
    lemma_run_end(chars, whole, CharClass::Alphanumeric);
}

fn holds(class: CharClass, c: char) -> (inside: bool)
    ensures
        inside == in_class(class, c),
{
    let digit = '0' <= c && c <= '9';
    let letter = ('a' <= c && c <= 'z') || ('A' <= c && c <= 'Z');
    match class {
        CharClass::Digit => digit,
        CharClass::Alphanumeric => digit || letter,
        CharClass::Word => digit || letter || c == '_',
        CharClass::NotQuote => c != '"',
        CharClass::NotApostrophe => c != '\'',
        CharClass::NotNewline => c != '\n',
    }
}

/// Whether `c` is white space.
pub fn is_whitespace(c: char) -> (space: bool)
    ensures
        space == is_space(c),
{
    let u = c as u32;
    (0x09 <= u && u <= 0x0D) || u == 0x20 || u == 0x85 || u == 0xA0 || u == 0x1680 || (0x2000 <= u
        && u <= 0x200A) || u == 0x2028 || u == 0x2029 || u == 0x202F || u == 0x205F || u == 0x3000
}

/// A character of the source and the byte offset that it starts at.
#[derive(Clone, Copy, Debug)]
pub struct SourceChar {
    pub index: usize,
    pub c: char,
}

impl SourceChar {
    pub fn new(index: usize, c: char) -> (source_char: Self)
        ensures
            source_char == (SourceChar { index, c }),
    {
        Self { index, c }
    }
}

/// A scanner over one source text.
pub struct Scanner<'source> {
    source: &'source str,
    /// The characters of the source, each with its byte offset, and behind
    /// them one entry for the end of the source, which holds the length
    /// of the source in bytes.
    source_chars: Vec<SourceChar>,
    start: usize,
    current: usize,
    line: usize,
}

impl<'source> View for Scanner<'source> {
    type V = Cursor;

    closed spec fn view(&self) -> Cursor {
        Cursor { chars: self.chars(), at: self.current as int, line: self.line as int }
    }
}

impl<'source> Scanner<'source> {
    /// The invariant of a scanner: it holds the characters of its source,
    /// and its position and line are those of a valid cursor.
    pub closed spec fn well_formed(&self) -> bool {
        &&& 1 <= self.source_chars@.len() <= usize::MAX
        &&& self.chars() == self.source@
        &&& self.start <= self.current <= self.chars().len()
        &&& 1 <= self.line <= self.current + 1
        &&& forall|i: int|
            0 <= i < self.source_chars@.len() ==> (#[trigger] self.source_chars@[i]).index
                == byte_offset(self.source@, i)
    }

    /// The characters of the source: those of `source_chars` but the
    /// last, which stands for the end of the source.
    pub closed spec fn chars(&self) -> Seq<char> {
        Seq::new((self.source_chars@.len() - 1) as nat, |i: int| self.source_chars@[i].c)
    }

    /// The source that the scanner reads.
    pub closed spec fn source(&self) -> Seq<char> {
        self.source@
    }

    pub proof fn lemma_well_formed(&self)
        requires
            self.well_formed(),
        ensures
            self@.valid(),
            self@.chars == self.source(),
            self@.chars.len() < usize::MAX,
    {
    }

    /// Whether the scanner has moved on from the state `before` to the
    /// position `to` within one token, counting the line feeds it passed.
    spec fn moved(&self, before: &Scanner<'source>, to: int) -> bool {
        &&& self.source_chars == before.source_chars
        &&& self.source@ == before.source@
        &&& self.start == before.start
        &&& self.current == to
        &&& self.line == before.line + newlines(before.chars(), before.current as int, to)
    }

    /// Whether the scanner, which in the state `before` had read the
    /// first character of a token, has read the whole token and made
    /// `token` of it.
    spec fn finished(&self, before: &Scanner<'source>, token: Token<'source>) -> bool {
        let lexed = lex(before.chars(), before.start as int);
        &&& self.moved(before, lexed.end)
        &&& token@ == TokenModel {
            kind: lexed.kind,
            lexeme: if lexed.kind == TokenKind::Error {
                lexed.message
            } else {
                before.chars().subrange(before.start as int, lexed.end)
            },
            line: self.line,
        }
    }

    /// A scanner at the start of `source`, on line 1.
    pub fn new(source: &'source str) -> (scanner: Self)
        ensures
            scanner.well_formed(),
            scanner@ == Cursor::start(source@),
            scanner.source() == source@,
    {
        let chars = chars_of(source);
        let total = source.as_bytes().len();
        let mut source_chars: Vec<SourceChar> = Vec::new();
        let mut index: usize = 0;
        proof {
            lemma_offset_bounds(source@, 0);
        }
        let mut i: usize = 0;
        while i < chars.len()
            invariant
                i <= chars@.len(),
                chars@ == source@,
                source_chars@.len() == i,
                index == byte_offset(source@, i as int),
                total == byte_offset(source@, source@.len() as int),
                forall|k: int|
                    0 <= k < i ==> (#[trigger] source_chars@[k]) == (SourceChar {
                        index: byte_offset(source@, k) as usize,
                        c: source@[k],
                    }),
            decreases chars@.len() - i,
        {
            let c = chars[i];
            proof {
                lemma_offset_step(source@, i as int);
                lemma_offset_bounds(source@, i + 1);
                lemma_offset_bounds(source@, i as int);
            }
            source_chars.push(SourceChar::new(index, c));
            index += utf8_width(c);
            i += 1;
        }
        source_chars.push(SourceChar::new(total, '\0'));
        proof {
            // The length of a vector fits its type: so does the number
            // of characters and one.
            assert(source_chars.len() == source@.len() + 1);
            assert(Seq::new((source_chars@.len() - 1) as nat, |k: int| source_chars@[k].c)
                =~= source@);
            assert forall|k: int| 0 <= k < source_chars@.len() implies (
            #[trigger] source_chars@[k]).index == byte_offset(source@, k) by {
                lemma_offset_bounds(source@, k);
            }
        }
        Self { source, source_chars, start: 0, current: 0, line: 1 }
    }

    /// Reads the next token. After the last token of the source every
    /// call gives `Eof`.
    pub fn next_token(&mut self) -> (token: Token<'source>)
        requires
            old(self).well_formed(),
        ensures
            final(self).well_formed(),
            final(self).source() == old(self).source(),
            (token@, final(self)@) == old(self)@.scan(),
    {
        self.skip_non_tokens();
        self.start = self.current;
        if self.is_at_end() {
            assert(self.chars().subrange(self.start as int, self.current as int) =~= Seq::empty());
            return self.make_token(TokenKind::Eof);
        }
        let line = self.line;
        let c = self.advance();
        proof {
            lemma_lex_advances(self.chars(), self.start as int);
            assert(newlines(self.chars(), self.start as int, self.start as int) == 0);
        }
        let token = match c {
            // The line feed is counted by now: its token is on the line
            // before it.
            '\n' => Token { kind: TokenKind::NewLine, lexeme: self.lexeme(), line },
            '(' => self.make_token(TokenKind::LeftParen),
            ')' => self.make_token(TokenKind::RightParen),
            '{' => self.make_token(TokenKind::LeftBrace),
            '}' => self.make_token(TokenKind::RightBrace),
            '[' => self.make_token(TokenKind::LeftBracket),
            ']' => self.make_token(TokenKind::RightBracket),
            ';' => self.make_token(TokenKind::Semicolon),
            ',' => self.make_token(TokenKind::Comma),
            '.' => self.make_token(TokenKind::Dot),
            '-' => self.make_token(TokenKind::Minus),
            '+' => self.make_token(TokenKind::Plus),
            '/' => self.make_token(TokenKind::Slash),
            '*' => self.make_token(TokenKind::Star),
            '%' => self.make_token(TokenKind::Percent),
            '&' => self.make_token(TokenKind::Ampersand),
            ':' => self.make_token(TokenKind::Colon),
            '!' => self.one_or_two('=', TokenKind::BangEqual, TokenKind::Bang),
            '=' => self.one_or_two('=', TokenKind::EqualEqual, TokenKind::Equal),
            '<' => {
                if self.match_advance('<') {
                    self.make_token(TokenKind::ShiftLeft)
                } else {
                    self.one_or_two('=', TokenKind::LessEqual, TokenKind::Less)
                }
            },
            '>' => {
                if self.match_advance('>') {
                    self.make_token(TokenKind::ShiftRight)
                } else {
                    self.one_or_two('=', TokenKind::GreaterEqual, TokenKind::Greater)
                }
            },
            '"' => self.string(),
            '\'' => self.character(),
            _ => {
                if holds(CharClass::Digit, c) {
                    self.number()
                } else if holds(CharClass::Word, c) {
                    self.identifier()
                } else {
                    self.error_token("Unexpected character")
                }
            },
        };
        proof {
            let chars = self.chars();
            let at = self.start as int;
            lemma_newlines_split(chars, at, at + 1, self.current as int);
            lemma_newlines_bound(chars, at, self.current as int);
        }
        token
    }

    /// Reads `second` if it comes next, and makes the token for the pair
    /// or for the single character.
    fn one_or_two(&mut self, second: char, both: TokenKind, single: TokenKind) -> (token: Token<
        'source,
    >)
        requires
            old(self).well_formed(),
            old(self).start + 1 == old(self).current,
            both != TokenKind::Error,
            single != TokenKind::Error,
        ensures
            final(self).well_formed(),
            final(self).moved(
                old(self),
                one_or_two(old(self).chars(), old(self).start as int, second, both, single).end,
            ),
            token@ == (TokenModel {
                kind: one_or_two(
                    old(self).chars(),
                    old(self).start as int,
                    second,
                    both,
                    single,
                ).kind,
                lexeme: old(self).chars().subrange(old(self).start as int, final(self).current as int),
                line: final(self).line,
            }),
    {
        if self.match_advance(second) {
            self.make_token(both)
        } else {
            assert(newlines(self.chars(), self.current as int, self.current as int) == 0);
            self.make_token(single)
        }
    }

    fn string(&mut self) -> (token: Token<'source>)
        requires
            old(self).well_formed(),
            old(self).start + 1 == old(self).current,
            old(self).chars()[old(self).start as int] == '"',
        ensures
            final(self).well_formed(),
            final(self).finished(old(self), token),
    {
        self.skip_run(CharClass::NotQuote);
        if self.is_at_end() {
            self.error_token("Unterminated string")
        } else {
            let ghost closing = *self;
            self.advance();
            proof {
                lemma_newlines_split(
                    self.chars(),
                    old(self).current as int,
                    closing.current as int,
                    self.current as int,
                );
            }
            self.make_token(TokenKind::String)
        }
    }

    fn character(&mut self) -> (token: Token<'source>)
        requires
            old(self).well_formed(),
            old(self).start + 1 == old(self).current,
            old(self).chars()[old(self).start as int] == '\'',
        ensures
            final(self).well_formed(),
            final(self).finished(old(self), token),
    {
        self.skip_run(CharClass::NotApostrophe);
        let count = self.current - self.start - 1;
        if self.is_at_end() {
            self.error_token("Unterminated character")
        } else {
            let ghost closing = *self;
            self.advance();
            proof {
                lemma_newlines_split(
                    self.chars(),
                    old(self).current as int,
                    closing.current as int,
                    self.current as int,
                );
            }
            if count > 1 {
                self.error_token("Character literal may only contain one character")
            } else {
                self.make_token(TokenKind::Char)
            }
        }
    }

    fn number(&mut self) -> (token: Token<'source>)
        requires
            old(self).well_formed(),
            old(self).start + 1 == old(self).current,
            is_digit(old(self).chars()[old(self).start as int]),
        ensures
            final(self).well_formed(),
            final(self).finished(old(self), token),
    {
        self.skip_run(CharClass::Digit);
        let ghost whole = *self;
        let ghost mut dotted = *self;
        if self.match_advance('.') {
            proof {
                dotted = *self;
            }
            self.skip_run(CharClass::Digit);
        }
        let ghost fraction = *self;
        self.skip_run(CharClass::Alphanumeric);
        proof {
            let chars = self.chars();
            let from = old(self).current as int;
            lemma_newlines_split(chars, whole.current as int, dotted.current as int, fraction.current as int);
            lemma_newlines_split(chars, from, whole.current as int, fraction.current as int);
            lemma_newlines_split(chars, from, fraction.current as int, self.current as int);
            assert(newlines(chars, whole.current as int, whole.current as int) == 0);
        }
        self.make_token(TokenKind::Number)
    }

    fn identifier(&mut self) -> (token: Token<'source>)
        requires
            old(self).well_formed(),
            old(self).start + 1 == old(self).current,
            is_alpha(old(self).chars()[old(self).start as int]) || old(self).chars()[old(
                self,
            ).start as int] == '_',
        ensures
            final(self).well_formed(),
            final(self).finished(old(self), token),
    {
        self.skip_run(CharClass::Word);
        match self.check_keyword() {
            Some(kind) => self.make_token(kind),
            None => self.make_token(TokenKind::Identifier),
        }
    }

    fn check_keyword(&self) -> (kind: Option<TokenKind>)
        requires
            self.well_formed(),
        ensures
            kind == keyword(self.chars().subrange(self.start as int, self.current as int)),
            kind != Some(TokenKind::Error),
    {
        let lexeme = self.lexeme();
        if same_text(lexeme, "if") {
            Some(TokenKind::If)
        } else if same_text(lexeme, "ifFalse") {
            Some(TokenKind::IfFalse)
        } else if same_text(lexeme, "goto") {
            Some(TokenKind::Goto)
        } else if same_text(lexeme, "param") {
            Some(TokenKind::Param)
        } else if same_text(lexeme, "call") {
            Some(TokenKind::Call)
        } else if same_text(lexeme, "return") {
            Some(TokenKind::Return)
        } else if same_text(lexeme, "true") {
            Some(TokenKind::True)
        } else if same_text(lexeme, "false") {
            Some(TokenKind::False)
        } else if same_text(lexeme, "print") {
            Some(TokenKind::Print)
        } else if same_text(lexeme, "println") {
            Some(TokenKind::PrintLn)
        } else if same_text(lexeme, "halt") {
            Some(TokenKind::Halt)
        } else if same_text(lexeme, "scan") {
            Some(TokenKind::Scan)
        } else if same_text(lexeme, "u64") {
            Some(TokenKind::U64KW)
        } else if same_text(lexeme, "i64") {
            Some(TokenKind::I64KW)
        } else if same_text(lexeme, "f64") {
            Some(TokenKind::F64KW)
        } else if same_text(lexeme, "char") {
            Some(TokenKind::CharKW)
        } else if same_text(lexeme, "bool") {
            Some(TokenKind::BoolKW)
        } else {
            None
        }
    }

    /// Reads the next character if it is `expected`.
    fn match_advance(&mut self, expected: char) -> (matched: bool)
        requires
            old(self).well_formed(),
        ensures
            final(self).well_formed(),
            matched == (old(self).current < old(self).chars().len() && old(self).chars()[old(
                self,
            ).current as int] == expected),
            final(self).moved(
                old(self),
                if matched {
                    old(self).current + 1
                } else {
                    old(self).current as int
                },
            ),
    {
        match self.peek() {
            Some(c) => {
                if c == expected {
                    self.advance();
                    true
                } else {
                    assert(newlines(self.chars(), self.current as int, self.current as int) == 0);
                    false
                }
            },
            None => {
                assert(newlines(self.chars(), self.current as int, self.current as int) == 0);
                false
            },
        }
    }

    /// Reads the next character if it is of `class`.
    fn match_pred_advance(&mut self, class: CharClass) -> (matched: bool)
        requires
            old(self).well_formed(),
        ensures
            final(self).well_formed(),
            matched == (old(self).current < old(self).chars().len() && in_class(
                class,
                old(self).chars()[old(self).current as int],
            )),
            final(self).moved(
                old(self),
                if matched {
                    old(self).current + 1
                } else {
                    old(self).current as int
                },
            ),
    {
        match self.peek() {
            Some(c) => {
                if holds(class, c) {
                    self.advance();
                    true
                } else {
                    assert(newlines(self.chars(), self.current as int, self.current as int) == 0);
                    false
                }
            },
            None => {
                assert(newlines(self.chars(), self.current as int, self.current as int) == 0);
                false
            },
        }
    }

    /// Reads the longest run of characters of `class`.
    fn skip_run(&mut self, class: CharClass)
        requires
            old(self).well_formed(),
        ensures
            final(self).well_formed(),
            final(self).moved(old(self), run_end(old(self).chars(), old(self).current as int, class)),
            old(self).current <= final(self).current,
    {
        assert(newlines(self.chars(), self.current as int, self.current as int) == 0);
        loop
            invariant
                self.well_formed(),
                old(self).current <= self.current,
                self.moved(old(self), self.current as int),
                run_end(self.chars(), self.current as int, class) == run_end(
                    old(self).chars(),
                    old(self).current as int,
                    class,
                ),
            ensures
                self.current == run_end(old(self).chars(), old(self).current as int, class),
            decreases self.chars().len() - self.current,
        {
            let ghost before = *self;
            if !self.match_pred_advance(class) {
                break ;
            }
            proof {
                lemma_newlines_split(
                    self.chars(),
                    old(self).current as int,
                    before.current as int,
                    self.current as int,
                );
            }
        }
    }

    /// Reads one character.
    fn advance(&mut self) -> (c: char)
        requires
            old(self).well_formed(),
            old(self).current < old(self).chars().len(),
        ensures
            final(self).well_formed(),
            c == old(self).chars()[old(self).current as int],
            final(self).moved(old(self), old(self).current + 1),
    {
        let c = self.source_chars[self.current].c;
        self.current += 1;
        if c == '\n' {
            self.line += 1;
        }
        assert(newlines(self.chars(), self.current - 1, self.current - 1) == 0);
        c
    }

    fn peek(&self) -> (c: Option<char>)
        requires
            self.well_formed(),
        ensures
            c == if self.current < self.chars().len() {
                Some(self.chars()[self.current as int])
            } else {
                None
            },
    {
        if self.current + 1 < self.source_chars.len() {
            Some(self.source_chars[self.current].c)
        } else {
            None
        }
    }

    fn is_at_end(&self) -> (at_end: bool)
        requires
            self.well_formed(),
        ensures
            at_end == (self.current == self.chars().len()),
    {
        self.current + 1 == self.source_chars.len()
    }

    fn lexeme(&self) -> (text: &'source str)
        requires
            self.well_formed(),
        ensures
            text@ == self.chars().subrange(self.start as int, self.current as int),
    {
        self.lexeme_at(self.start, self.current)
    }

    fn make_token(&self, kind: TokenKind) -> (token: Token<'source>)
        requires
            self.well_formed(),
        ensures
            token@ == (TokenModel {
                kind,
                lexeme: self.chars().subrange(self.start as int, self.current as int),
                line: self.line,
            }),
    {
        Token { kind, lexeme: self.lexeme(), line: self.line }
    }

    fn error_token(&self, message: &'static str) -> (token: Token<'static>)
        ensures
            token@ == (TokenModel { kind: TokenKind::Error, lexeme: message@, line: self.line }),
    {
        Token { kind: TokenKind::Error, lexeme: message, line: self.line }
    }

    /// Passes white space other than a line feed and, behind it, a
    /// comment up to its line feed.
    fn skip_non_tokens(&mut self)
        requires
            old(self).well_formed(),
        ensures
            final(self).well_formed(),
            final(self).source_chars == old(self).source_chars,
            final(self).source@ == old(self).source@,
            final(self).line == old(self).line,
            final(self).current == skip_end(old(self).chars(), old(self).current as int),
    {
        proof {
            lemma_skip_end(self.chars(), self.current as int);
        }
        loop
            invariant
                self.well_formed(),
                self.source_chars == old(self).source_chars,
                self.source@ == old(self).source@,
                self.line == old(self).line,
                old(self).current <= self.current,
                skip_end(self.chars(), self.current as int) == skip_end(
                    old(self).chars(),
                    old(self).current as int,
                ),
            ensures
                self.current == skip_end(old(self).chars(), old(self).current as int),
            decreases self.chars().len() - self.current,
        {
            match self.peek() {
                Some(c) => {
                    if c != '\n' && is_whitespace(c) {
                        assert(newlines(self.chars(), self.current as int, self.current + 1) == 0) by {
                            assert(newlines(self.chars(), self.current as int, self.current as int)
                                == 0);
                        }
                        self.advance();
                    } else if c == '#' {
                        self.advance();
                        proof {
                            lemma_run_end(self.chars(), self.current as int, CharClass::NotNewline);
                            lemma_no_newlines(
                                self.chars(),
                                self.current as int,
                                run_end(self.chars(), self.current as int, CharClass::NotNewline),
                            );
                            assert(newlines(self.chars(), self.current - 1, self.current as int) == 0) by {
                                assert(newlines(self.chars(), self.current - 1, self.current - 1)
                                    == 0);
                            }
                        }
                        self.skip_run(CharClass::NotNewline);
                        break ;
                    } else {
                        break ;
                    }
                },
                None => {
                    break ;
                },
            }
        }
    }

    /// The text of the source from character `start` up to character
    /// `end`.
    fn lexeme_at(&self, start: usize, end: usize) -> (text: &'source str)
        requires
            self.well_formed(),
            start <= end <= self.chars().len(),
        ensures
            text@ == self.chars().subrange(start as int, end as int),
    {
        let left = self.offset_at(start);
        let right = self.offset_at(end);
        slice(self.source, left, right, Ghost(start as int), Ghost(end as int))
    }

    /// The byte offset of the character at `at`, or the length of the
    /// source in bytes where `at` is behind the last character.
    fn offset_at(&self, at: usize) -> (offset: usize)
        requires
            self.well_formed(),
            at <= self.chars().len(),
        ensures
            offset == byte_offset(self.source@, at as int),
    {
        self.source_chars[at].index
    }
}

} // verus!
