use vstd::prelude::*;

use crate::{LexFault, LuaError};

verus! {

/// A lexical unit, generic over the representation of the text carried by
/// `Name` and `Str` so that the same vocabulary serves executable tokens
/// (`Vec<u8>`) and their mathematical models (`Seq<u8>`).
///
/// The vocabulary already enumerates keywords and operators for constructs
/// outside the current grammar; no rule consumes them yet.
#[verifier::ext_equal]
#[derive(Debug, Clone, PartialEq, Eq)]
pub enum TokenG<S> {
    // keywords
    And,
    Do,
    Else,
    Elseif,
    End,
    False,
    True,
    For,
    Function,
    Goto,
    If,
    In,
    Local,
    Nil,
    Not,
    Or,
    Repeat,
    Return,
    Then,
    Until,
    While,
    // operators and punctuation
    Add,
    Sub,
    Mul,
    Div,
    Mod,
    Pow,
    Len,
    BitAnd,
    BitXor,
    BitOr,
    ShiftL,
    ShiftR,
    Idiv,
    NotEq,
    Equal,
    LesEq,
    GreEq,
    Less,
    Greater,
    Assign,
    ParL,
    ParR,
    CurlyL,
    CurlyR,
    SqurL,
    SqurR,
    DoubColon,
    SemiColon,
    Colon,
    Comma,
    Dot,
    Concat,
    Dots,
    // literal-carrying tokens and the end-of-stream sentinel
    Name(S),
    Integer(i64),
    Str(S),
    EOS,
}

/// An executable token.
pub type Token = TokenG<Vec<u8>>;

/// The mathematical model of a token.
pub type SpecToken = TokenG<Seq<u8>>;

impl View for Token {
    type V = SpecToken;

    open spec fn view(&self) -> SpecToken {
        match self {
            TokenG::And => TokenG::And,
            TokenG::Do => TokenG::Do,
            TokenG::Else => TokenG::Else,
            TokenG::Elseif => TokenG::Elseif,
            TokenG::End => TokenG::End,
            TokenG::False => TokenG::False,
            TokenG::True => TokenG::True,
            TokenG::For => TokenG::For,
            TokenG::Function => TokenG::Function,
            TokenG::Goto => TokenG::Goto,
            TokenG::If => TokenG::If,
            TokenG::In => TokenG::In,
            TokenG::Local => TokenG::Local,
            TokenG::Nil => TokenG::Nil,
            TokenG::Not => TokenG::Not,
            TokenG::Or => TokenG::Or,
            TokenG::Repeat => TokenG::Repeat,
            TokenG::Return => TokenG::Return,
            TokenG::Then => TokenG::Then,
            TokenG::Until => TokenG::Until,
            TokenG::While => TokenG::While,
            TokenG::Add => TokenG::Add,
            TokenG::Sub => TokenG::Sub,
            TokenG::Mul => TokenG::Mul,
            TokenG::Div => TokenG::Div,
            TokenG::Mod => TokenG::Mod,
            TokenG::Pow => TokenG::Pow,
            TokenG::Len => TokenG::Len,
            TokenG::BitAnd => TokenG::BitAnd,
            TokenG::BitXor => TokenG::BitXor,
            TokenG::BitOr => TokenG::BitOr,
            TokenG::ShiftL => TokenG::ShiftL,
            TokenG::ShiftR => TokenG::ShiftR,
            TokenG::Idiv => TokenG::Idiv,
            TokenG::NotEq => TokenG::NotEq,
            TokenG::Equal => TokenG::Equal,
            TokenG::LesEq => TokenG::LesEq,
            TokenG::GreEq => TokenG::GreEq,
            TokenG::Less => TokenG::Less,
            TokenG::Greater => TokenG::Greater,
            TokenG::Assign => TokenG::Assign,
            TokenG::ParL => TokenG::ParL,
            TokenG::ParR => TokenG::ParR,
            TokenG::CurlyL => TokenG::CurlyL,
            TokenG::CurlyR => TokenG::CurlyR,
            TokenG::SqurL => TokenG::SqurL,
            TokenG::SqurR => TokenG::SqurR,
            TokenG::DoubColon => TokenG::DoubColon,
            TokenG::SemiColon => TokenG::SemiColon,
            TokenG::Colon => TokenG::Colon,
            TokenG::Comma => TokenG::Comma,
            TokenG::Dot => TokenG::Dot,
            TokenG::Concat => TokenG::Concat,
            TokenG::Dots => TokenG::Dots,
            TokenG::Name(s) => TokenG::Name(s@),
            TokenG::Integer(i) => TokenG::Integer(*i),
            TokenG::Str(s) => TokenG::Str(s@),
            TokenG::EOS => TokenG::EOS,
        }
    }
}

/// The byte at `pos`, or 0 when `pos` is outside the input.
pub open spec fn byte_at(s: Seq<u8>, pos: int) -> u8 {
    if 0 <= pos < s.len() {
        s[pos]
    } else {
        0
    }
}

/// Whitespace skipped between tokens: space, tab, CR, LF.
pub open spec fn is_white(b: u8) -> bool {
    b == 32 || b == 9 || b == 13 || b == 10
}

/// An ASCII decimal digit.
pub open spec fn is_digit(b: u8) -> bool {
    48 <= b <= 57
}

/// A byte that may begin an identifier: an ASCII letter or underscore.
/// Source text is byte-oriented and restricted to ASCII.
pub open spec fn is_name_start(b: u8) -> bool {
    (97 <= b <= 122) || (65 <= b <= 90) || b == 95
}

/// A byte that may continue an identifier.
pub open spec fn is_name_cont(b: u8) -> bool {
    is_name_start(b) || is_digit(b)
}

/// Scans an identifier forward from `pos`, extending `acc`; yields the full
/// name and the position of the first byte after it.
pub open spec fn scan_name(s: Seq<u8>, pos: int, acc: Seq<u8>) -> (Seq<u8>, int)
    decreases s.len() - pos,
{
    if pos < 0 || pos >= s.len() || !is_name_cont(s[pos]) {
        (acc, pos)
    } else {
        scan_name(s, pos + 1, acc.push(s[pos]))
    }
}

/// Matches a scanned identifier against the reserved-word table,
/// case-sensitively; unmatched names become `Name` tokens. The table is the
/// vocabulary's own: it spells the nil keyword `Nil`.
pub open spec fn spec_name_token(n: Seq<u8>) -> SpecToken {
    if n.len() == 2 {
        if n == seq![100u8, 111u8] {  // do
            TokenG::Do
        } else if n == seq![105u8, 102u8] {  // if
            TokenG::If
        } else if n == seq![105u8, 110u8] {  // in
            TokenG::In
        } else if n == seq![111u8, 114u8] {  // or
            TokenG::Or
        } else {
            TokenG::Name(n)
        }
    } else if n.len() == 3 {
        if n == seq![97u8, 110u8, 100u8] {  // and
            TokenG::And
        } else if n == seq![101u8, 110u8, 100u8] {  // end
            TokenG::End
        } else if n == seq![102u8, 111u8, 114u8] {  // for
            TokenG::For
        } else if n == seq![110u8, 111u8, 116u8] {  // not
            TokenG::Not
        } else if n == seq![78u8, 105u8, 108u8] {  // Nil
            TokenG::Nil
        } else {
            TokenG::Name(n)
        }
    } else if n.len() == 4 {
        if n == seq![101u8, 108u8, 115u8, 101u8] {  // else
            TokenG::Else
        } else if n == seq![103u8, 111u8, 116u8, 111u8] {  // goto
            TokenG::Goto
        } else if n == seq![116u8, 104u8, 101u8, 110u8] {  // then
            TokenG::Then
        } else if n == seq![116u8, 114u8, 117u8, 101u8] {  // true
            TokenG::True
        } else {
            TokenG::Name(n)
        }
    } else if n.len() == 5 {
        if n == seq![108u8, 111u8, 99u8, 97u8, 108u8] {  // local
            TokenG::Local
        } else if n == seq![117u8, 110u8, 116u8, 105u8, 108u8] {  // until
            TokenG::Until
        } else if n == seq![119u8, 104u8, 105u8, 108u8, 101u8] {  // while
            TokenG::While
        } else if n == seq![102u8, 97u8, 108u8, 115u8, 101u8] {  // false
            TokenG::False
        } else {
            TokenG::Name(n)
        }
    } else if n.len() == 6 {
        if n == seq![101u8, 108u8, 115u8, 101u8, 105u8, 102u8] {  // elseif
            TokenG::Elseif
        } else if n == seq![114u8, 101u8, 112u8, 101u8, 97u8, 116u8] {  // repeat
            TokenG::Repeat
        } else if n == seq![114u8, 101u8, 116u8, 117u8, 114u8, 110u8] {  // return
            TokenG::Return
        } else {
            TokenG::Name(n)
        }
    } else if n.len() == 8 {
        if n == seq![102u8, 117u8, 110u8, 99u8, 116u8, 105u8, 111u8, 110u8] {  // function
            TokenG::Function
        } else {
            TokenG::Name(n)
        }
    } else {
        TokenG::Name(n)
    }
}

/// Scans a string literal's body from `pos` up to the closing `quote`;
/// no escape processing. End of input before the closing quote is fatal.
pub open spec fn scan_str(s: Seq<u8>, pos: int, quote: u8, acc: Seq<u8>) -> Result<
    (Seq<u8>, int),
    LuaError,
>
    decreases s.len() - pos,
{
    if pos < 0 || pos >= s.len() {
        Err(LuaError::Lexical(LexFault::UnterminatedString))
    } else if s[pos] == quote {
        Ok((acc, pos + 1))
    } else {
        scan_str(s, pos + 1, quote, acc.push(s[pos]))
    }
}

/// Accumulates decimal digits (`acc` is the value so far). A digit that
/// would push the value past `i64::MAX` is fatal, as is a fraction or
/// exponent mark after the digits: the supported numeric grammar is
/// decimal integers only.
pub open spec fn scan_digits(s: Seq<u8>, pos: int, acc: int) -> Result<(int, int), LuaError>
    decreases s.len() - pos,
{
    if 0 <= pos < s.len() && is_digit(s[pos]) {
        let acc2 = acc * 10 + (s[pos] - 48);
        if acc2 > i64::MAX {
            Err(LuaError::Lexical(LexFault::NumberOverflow))
        } else {
            scan_digits(s, pos + 1, acc2)
        }
    } else if byte_at(s, pos) == 46 || byte_at(s, pos) == 101 || byte_at(s, pos) == 69 {
        // '.', 'e', 'E'
        Err(LuaError::Lexical(LexFault::UnsupportedNumericForm))
    } else {
        Ok((acc, pos))
    }
}

/// A numeric literal whose first digit `d0` stood just before `pos`.
/// A leading `0x`/`0X` is an unsupported form.
pub open spec fn lex_number(s: Seq<u8>, pos: int, d0: u8) -> Result<(SpecToken, int), LuaError> {
    if d0 == 48 && (byte_at(s, pos) == 120 || byte_at(s, pos) == 88) {  // '0' then 'x'/'X'
        Err(LuaError::Lexical(LexFault::UnsupportedNumericForm))
    } else {
        match scan_digits(s, pos, (d0 - 48) as int) {
            Err(e) => Err(e),
            Ok((v, p)) => Ok((TokenG::Integer(v as i64), p)),
        }
    }
}

/// The position after a line comment that starts at `pos`: everything up to
/// and including the next LF, or the end of input.
pub open spec fn skip_comment(s: Seq<u8>, pos: int) -> int
    decreases s.len() - pos,
{
    if pos < 0 || pos >= s.len() {
        if pos < 0 {
            0
        } else {
            pos
        }
    } else if s[pos] == 10 {
        pos + 1
    } else {
        skip_comment(s, pos + 1)
    }
}

/// A two-character operator whose first character stood just before `pos`:
/// `long` when the byte at `pos` is `expect`, else `short` with the
/// lookahead pushed back.
pub open spec fn two_char(
    s: Seq<u8>,
    pos: int,
    expect: u8,
    long: SpecToken,
    short: SpecToken,
) -> (SpecToken, int) {
    if byte_at(s, pos) == expect && pos < s.len() {
        (long, pos + 1)
    } else {
        (short, pos)
    }
}

/// The three-way check for `>` and `<`, which may become a shift, a
/// comparison, or the plain relational operator.
pub open spec fn three_char(
    s: Seq<u8>,
    pos: int,
    e1: u8,
    long1: SpecToken,
    e2: u8,
    long2: SpecToken,
    short: SpecToken,
) -> (SpecToken, int) {
    if byte_at(s, pos) == e1 && pos < s.len() {
        (long1, pos + 1)
    } else if byte_at(s, pos) == e2 && pos < s.len() {
        (long2, pos + 1)
    } else {
        (short, pos)
    }
}

/// The next token at `pos`, with the position of the first byte after it.
/// Whitespace and line comments are skipped; end of input yields the `EOS`
/// sentinel; any byte that begins no token is fatal.
pub open spec fn lex_token(s: Seq<u8>, pos: int) -> Result<(SpecToken, int), LuaError>
    decreases s.len() - pos,
{
    if pos < 0 {
        Err(LuaError::Lexical(LexFault::UnexpectedByte))
    } else if pos >= s.len() {
        Ok((TokenG::EOS, pos))
    } else {
        let b = s[pos];
        if is_white(b) {
            lex_token(s, pos + 1)
        } else if b == 43 {  // '+'
            Ok((TokenG::Add, pos + 1))
        } else if b == 42 {  // '*'
            Ok((TokenG::Mul, pos + 1))
        } else if b == 37 {  // '%'
            Ok((TokenG::Mod, pos + 1))
        } else if b == 94 {  // '^'
            Ok((TokenG::Pow, pos + 1))
        } else if b == 35 {  // '#'
            Ok((TokenG::Len, pos + 1))
        } else if b == 38 {  // '&'
            Ok((TokenG::BitAnd, pos + 1))
        } else if b == 124 {  // '|'
            Ok((TokenG::BitOr, pos + 1))
        } else if b == 40 {  // '('
            Ok((TokenG::ParL, pos + 1))
        } else if b == 41 {  // ')'
            Ok((TokenG::ParR, pos + 1))
        } else if b == 91 {  // '['
            Ok((TokenG::CurlyL, pos + 1))
        } else if b == 93 {  // ']'
            Ok((TokenG::CurlyR, pos + 1))
        } else if b == 123 {  // '{'
            Ok((TokenG::SqurL, pos + 1))
        } else if b == 125 {  // '}'
            Ok((TokenG::SqurR, pos + 1))
        } else if b == 59 {  // ';'
            Ok((TokenG::SemiColon, pos + 1))
        } else if b == 44 {  // ','
            Ok((TokenG::Comma, pos + 1))
        } else if b == 39 || b == 34 {  // quotes
            match scan_str(s, pos + 1, b, Seq::empty()) {
                Err(e) => Err(e),
                Ok((body, p)) => Ok((TokenG::Str(body), p)),
            }
        } else if b == 45 {  // '-'
            if byte_at(s, pos + 1) == 45 && pos + 1 < s.len() {
                proof {
                    lemma_skip_comment_bounds(s, pos + 2);
                }
                lex_token(s, skip_comment(s, pos + 2))
            } else {
                Ok((TokenG::Sub, pos + 1))
            }
        } else if b == 58 {  // ':'
            Ok(two_char(s, pos + 1, 58, TokenG::DoubColon, TokenG::Colon))
        } else if b == 126 {  // '~'
            Ok(two_char(s, pos + 1, 61, TokenG::NotEq, TokenG::BitXor))
        } else if b == 61 {  // '='
            Ok(two_char(s, pos + 1, 61, TokenG::Equal, TokenG::Assign))
        } else if b == 47 {  // '/'
            Ok(two_char(s, pos + 1, 47, TokenG::Idiv, TokenG::Div))
        } else if b == 62 {  // '>'
            Ok(three_char(s, pos + 1, 62, TokenG::ShiftR, 61, TokenG::GreEq, TokenG::Greater))
        } else if b == 60 {  // '<'
            Ok(three_char(s, pos + 1, 60, TokenG::ShiftL, 61, TokenG::LesEq, TokenG::Less))
        } else if is_name_start(b) {
            let (nm, p) = scan_name(s, pos + 1, seq![b]);
            Ok((spec_name_token(nm), p))
        } else if is_digit(b) {
            lex_number(s, pos + 1, b)
        } else {
            Err(LuaError::Lexical(LexFault::UnexpectedByte))
        }
    }
}

/// `skip_comment` never moves backward and never leaves the input.
pub proof fn lemma_skip_comment_bounds(s: Seq<u8>, pos: int)
    ensures
        skip_comment(s, pos) >= pos,
        pos <= s.len() ==> skip_comment(s, pos) <= s.len(),
        skip_comment(s, pos) >= 0,
    decreases s.len() - pos,
{
    if 0 <= pos < s.len() && s[pos] != 10 {
        lemma_skip_comment_bounds(s, pos + 1);
    }
}

/// `scan_name` never moves backward and never leaves the input.
pub proof fn lemma_scan_name_bounds(s: Seq<u8>, pos: int, acc: Seq<u8>)
    ensures
        scan_name(s, pos, acc).1 >= pos,
        pos <= s.len() ==> scan_name(s, pos, acc).1 <= s.len(),
    decreases s.len() - pos,
{
    if !(pos < 0 || pos >= s.len() || !is_name_cont(s[pos])) {
        lemma_scan_name_bounds(s, pos + 1, acc.push(s[pos]));
    }
}

/// A successful `scan_str` ends past `pos` and inside the input.
pub proof fn lemma_scan_str_bounds(s: Seq<u8>, pos: int, quote: u8, acc: Seq<u8>)
    ensures
        scan_str(s, pos, quote, acc) matches Ok((body, p)) ==> pos < p <= s.len(),
    decreases s.len() - pos,
{
    if !(pos < 0 || pos >= s.len()) && s[pos] != quote {
        lemma_scan_str_bounds(s, pos + 1, quote, acc.push(s[pos]));
    }
}

/// A successful `scan_digits` never moves backward and stays inside the input.
pub proof fn lemma_scan_digits_bounds(s: Seq<u8>, pos: int, acc: int)
    ensures
        scan_digits(s, pos, acc) matches Ok((v, p)) ==> p >= pos,
        scan_digits(s, pos, acc) matches Ok((v, p)) ==> (pos <= s.len() ==> p <= s.len()),
    decreases s.len() - pos,
{
    if 0 <= pos < s.len() && is_digit(s[pos]) {
        let acc2 = acc * 10 + (s[pos] - 48);
        if acc2 <= i64::MAX {
            lemma_scan_digits_bounds(s, pos + 1, acc2);
        }
    }
}

/// A token other than the end sentinel occupies at least one byte: lexing
/// moves strictly forward and never leaves the input.
pub proof fn lemma_lex_token_progress(s: Seq<u8>, pos: int)
    ensures
        lex_token(s, pos) matches Ok((t, p2)) ==> (!(t is EOS) ==> pos < p2 <= s.len()),
    decreases s.len() - pos,
{
    if pos < 0 || pos >= s.len() {
    } else {
        let b = s[pos];
        if is_white(b) {
            lemma_lex_token_progress(s, pos + 1);
        } else if b == 39 || b == 34 {
            lemma_scan_str_bounds(s, pos + 1, b, Seq::empty());
        } else if b == 45 {
            if byte_at(s, pos + 1) == 45 && pos + 1 < s.len() {
                lemma_skip_comment_bounds(s, pos + 2);
                lemma_lex_token_progress(s, skip_comment(s, pos + 2));
            }
        } else if is_name_start(b) {
            lemma_scan_name_bounds(s, pos + 1, seq![b]);
        } else if is_digit(b) {
            lemma_scan_digits_bounds(s, pos + 1, (b - 48) as int);
        }
    }
}

/// The stream of tokens that lexing yields from `pos` on: every token up to
/// (but not including) the end sentinel, and `Some` fatal fault if lexing
/// fails before the end of input is reached.
#[verifier::ext_equal]
pub ghost struct TokView {
    pub toks: Seq<SpecToken>,
    pub err: Option<LuaError>,
}

pub open spec fn stream_from(s: Seq<u8>, pos: int) -> TokView
    decreases s.len() - pos,
{
    match lex_token(s, pos) {
        Err(e) => TokView { toks: Seq::empty(), err: Some(e) },
        Ok((t, p2)) => {
            if t is EOS {
                TokView { toks: Seq::empty(), err: None }
            } else {
                proof {
                    lemma_lex_token_progress(s, pos);
                }
                let rest = stream_from(s, p2);
                TokView { toks: seq![t] + rest.toks, err: rest.err }
            }
        },
    }
}

/// One step of the token stream: the head token and the remainder. A
/// drained, fault-free stream yields the end sentinel forever; a drained
/// faulty stream yields its fault.
pub open spec fn stream_next(v: TokView) -> Result<(SpecToken, TokView), LuaError> {
    if v.toks.len() > 0 {
        Ok((v.toks[0], TokView { toks: v.toks.drop_first(), err: v.err }))
    } else {
        match v.err {
            Some(e) => Err(e),
            None => Ok((TokenG::EOS, v)),
        }
    }
}


/// End-of-stream tokens arise only at the end of the input.
pub proof fn lemma_lex_eos(s: Seq<u8>, pos: int)
    ensures
        lex_token(s, pos) matches Ok((t, p2)) ==> (t is EOS ==> p2 >= s.len() && p2 >= pos),
    decreases s.len() - pos,
{
    if 0 <= pos < s.len() {
        let b = s[pos];
        if is_white(b) {
            lemma_lex_eos(s, pos + 1);
        } else if b == 45 && byte_at(s, pos + 1) == 45 && pos + 1 < s.len() {
            lemma_skip_comment_bounds(s, pos + 2);
            lemma_lex_eos(s, skip_comment(s, pos + 2));
        }
    }
}

/// The character-level scanner: the raw input bytes, a cursor with
/// single-character pushback, and an optional cached token that `peek`
/// fills and `next` drains.
pub struct Lexer {
    input: Vec<u8>,
    pos: usize,
    ahead: Option<Token>,
}

impl Lexer {
    /// The input bytes.
    pub closed spec fn src(self) -> Seq<u8> {
        self.input@
    }

    /// The cursor: the position of the next byte to scan.
    pub closed spec fn at(self) -> int {
        self.pos as int
    }

    /// The cached token, if one is buffered.
    pub closed spec fn ahead_tok(self) -> Option<SpecToken> {
        match self.ahead {
            Some(t) => Some(t@),
            None => None,
        }
    }

    /// Whether a token is buffered.
    pub open spec fn buffered(self) -> bool {
        self.ahead_tok() is Some
    }

    /// The cursor never leaves the input, and the end sentinel is cached
    /// only once the whole input is consumed.
    pub open spec fn wf(self) -> bool {
        &&& self.at() <= self.src().len()
        &&& (self.ahead_tok() matches Some(t) ==> (t is EOS ==> self.at() == self.src().len()))
    }
}

impl View for Lexer {
    type V = TokView;

    /// A lexer denotes the stream of tokens it has yet to hand out.
    open spec fn view(&self) -> TokView {
        match self.ahead_tok() {
            Some(t) => {
                if t is EOS {
                    TokView { toks: Seq::empty(), err: None }
                } else {
                    let rest = stream_from(self.src(), self.at());
                    TokView { toks: seq![t] + rest.toks, err: rest.err }
                }
            },
            None => stream_from(self.src(), self.at()),
        }
    }
}

impl Lexer {
    /// A lexer over the given source bytes.
    pub fn new(input: Vec<u8>) -> (r: Lexer)
        ensures
            r.wf(),
            !r.buffered(),
            r@ == stream_from(input@, 0),
    {
        Lexer { input, pos: 0, ahead: None }
    }

    /// The byte under the cursor without consuming it; 0 at end of input.
    fn peek_byte(&self) -> (b: u8)
        requires
            self.wf(),
        ensures
            b == byte_at(self.src(), self.at()),
    {
        if self.pos < self.input.len() {
            self.input[self.pos]
        } else {
            0
        }
    }

    /// Reads and consumes one byte; 0 at end of input, without moving.
    pub fn read_char(&mut self) -> (b: u8)
        requires
            old(self).wf(),
        ensures
            final(self).wf(),
            b == byte_at(old(self).src(), old(self).at()),
            final(self).src() == old(self).src(),
            final(self).ahead_tok() == old(self).ahead_tok(),
            final(self).at() == if old(self).at() < old(self).src().len() {
                old(self).at() + 1
            } else {
                old(self).at()
            },
    {
        if self.pos < self.input.len() {
            let b = self.input[self.pos];
            self.pos += 1;
            b
        } else {
            0
        }
    }

    /// Pushes the last consumed byte back under the cursor.
    fn back_char(&mut self)
        requires
            old(self).wf(),
            !old(self).buffered(),
            old(self).at() >= 1,
        ensures
            final(self).wf(),
            final(self).src() == old(self).src(),
            final(self).ahead_tok() == old(self).ahead_tok(),
            final(self).at() == old(self).at() - 1,
    {
        self.pos -= 1;
    }

    /// Recognizes a two-character operator whose first character was just
    /// consumed: `long` when the lookahead is `ahead`, else `short` with the
    /// lookahead pushed back.
    fn check_ahead_condition(&mut self, ahead: u8, long: Token, short: Token) -> (t: Token)
        requires
            old(self).wf(),
            !old(self).buffered(),
            ahead != 0,
        ensures
            final(self).wf(),
            final(self).src() == old(self).src(),
            final(self).ahead_tok() == old(self).ahead_tok(),
            (t@, final(self).at()) == two_char(old(self).src(), old(self).at(), ahead, long@, short@),
    {
        let p0 = self.pos;
        let c = self.read_char();
        if c == ahead {
            long
        } else {
            if self.pos > p0 {
                self.back_char();
            }
            short
        }
    }

    /// The three-way variant for `>` and `<`: shift, comparison, or the
    /// plain relational operator.
    fn check_ahead_conditions(
        &mut self,
        ahead1: u8,
        long1: Token,
        ahead2: u8,
        long2: Token,
        short: Token,
    ) -> (t: Token)
        requires
            old(self).wf(),
            !old(self).buffered(),
            ahead1 != 0,
            ahead2 != 0,
        ensures
            final(self).wf(),
            final(self).src() == old(self).src(),
            final(self).ahead_tok() == old(self).ahead_tok(),
            (t@, final(self).at()) == three_char(
                old(self).src(),
                old(self).at(),
                ahead1,
                long1@,
                ahead2,
                long2@,
                short@,
            ),
    {
        let p0 = self.pos;
        let c = self.read_char();
        if c == ahead1 {
            long1
        } else if c == ahead2 {
            long2
        } else {
            if self.pos > p0 {
                self.back_char();
            }
            short
        }
    }

    /// Skips a line comment: everything up to and including the next LF, or
    /// the end of input.
    #[verifier::loop_isolation(false)]
    fn read_comment(&mut self)
        requires
            old(self).wf(),
        ensures
            final(self).wf(),
            final(self).src() == old(self).src(),
            final(self).ahead_tok() == old(self).ahead_tok(),
            final(self).at() == skip_comment(old(self).src(), old(self).at()),
    {
        let ghost s = self.input@;
        let ghost p0 = self.pos as int;
        while self.pos < self.input.len() && self.input[self.pos] != 10
            invariant
                self.input@ == s,
                self.ahead == old(self).ahead,
                p0 <= self.pos as int <= s.len(),
                skip_comment(s, self.pos as int) == skip_comment(s, p0),
            decreases s.len() - self.pos,
        {
            self.pos += 1;
        }
        if self.pos < self.input.len() {
            self.pos += 1;
        }
    }

    /// Scans a string literal's body up to the closing `quote`; no escape
    /// processing. End of input before the closing quote is fatal.
    #[verifier::loop_isolation(false)]
    fn read_string(&mut self, quote: u8) -> (r: Result<Token, LuaError>)
        requires
            old(self).wf(),
        ensures
            final(self).wf(),
            final(self).src() == old(self).src(),
            final(self).ahead_tok() == old(self).ahead_tok(),
            match r {
                Ok(t) => {
                    &&& scan_str(old(self).src(), old(self).at(), quote, Seq::empty()) matches Ok(
                        (body, p),
                    )
                    &&& t@ == TokenG::Str(
                        scan_str(old(self).src(), old(self).at(), quote, Seq::empty())->Ok_0.0,
                    )
                    &&& final(self).at() == scan_str(
                        old(self).src(),
                        old(self).at(),
                        quote,
                        Seq::empty(),
                    )->Ok_0.1
                },
                Err(e) => scan_str(old(self).src(), old(self).at(), quote, Seq::empty()) == Err::<
                    (Seq<u8>, int),
                    LuaError,
                >(e),
            },
    {
        let ghost s = self.input@;
        let ghost p0 = self.pos as int;
        let mut acc: Vec<u8> = Vec::new();
        loop
            invariant
                self.wf(),
                self.input@ == s,
                self.ahead == old(self).ahead,
                p0 <= self.pos as int,
                scan_str(s, self.pos as int, quote, acc@) == scan_str(s, p0, quote, Seq::empty()),
            decreases s.len() - self.pos,
        {
            if self.pos >= self.input.len() {
                return Err(LuaError::Lexical(LexFault::UnterminatedString));
            }
            let c = self.input[self.pos];
            self.pos += 1;
            if c == quote {
                return Ok(TokenG::Str(acc));
            }
            acc.push(c);
        }
    }

    /// Scans an identifier whose first byte `first` was just consumed and
    /// matches it against the reserved-word table.
    #[verifier::loop_isolation(false)]
    fn read_name(&mut self, first: u8) -> (t: Token)
        requires
            old(self).wf(),
        ensures
            final(self).wf(),
            final(self).src() == old(self).src(),
            final(self).ahead_tok() == old(self).ahead_tok(),
            ({
                let (nm, p) = scan_name(old(self).src(), old(self).at(), seq![first]);
                t@ == spec_name_token(nm) && final(self).at() == p
            }),
    {
        let ghost s = self.input@;
        let ghost p0 = self.pos as int;
        let mut name: Vec<u8> = Vec::new();
        name.push(first);
        while self.pos < self.input.len() && cont_byte(self.input[self.pos])
            invariant
                self.wf(),
                self.input@ == s,
                self.ahead == old(self).ahead,
                p0 <= self.pos as int,
                scan_name(s, self.pos as int, name@) == scan_name(s, p0, seq![first]),
            decreases s.len() - self.pos,
        {
            name.push(self.input[self.pos]);
            self.pos += 1;
        }
        name_token(name)
    }

    /// Scans a decimal integer literal whose first digit `first` was just
    /// consumed. Hexadecimal, fraction, and exponent forms are outside the
    /// supported numeric grammar, and a value past `i64::MAX` is fatal.
    #[verifier::loop_isolation(false)]
    fn read_number(&mut self, first: u8) -> (r: Result<Token, LuaError>)
        requires
            old(self).wf(),
            is_digit(first),
        ensures
            final(self).wf(),
            final(self).src() == old(self).src(),
            final(self).ahead_tok() == old(self).ahead_tok(),
            match r {
                Ok(t) => lex_number(old(self).src(), old(self).at(), first) == Ok::<
                    _,
                    LuaError,
                >((t@, final(self).at())),
                Err(e) => lex_number(old(self).src(), old(self).at(), first) == Err::<
                    (SpecToken, int),
                    LuaError,
                >(e),
            },
    {
        let ghost s = self.input@;
        let ghost p0 = self.pos as int;
        if first == 48 {
            let nx = self.peek_byte();
            if nx == 120 || nx == 88 {
                return Err(LuaError::Lexical(LexFault::UnsupportedNumericForm));
            }
        }
        let mut sum: i64 = (first - 48) as i64;
        loop
            invariant
                self.wf(),
                self.input@ == s,
                self.ahead == old(self).ahead,
                p0 <= self.pos as int,
                0 <= sum,
                scan_digits(s, self.pos as int, sum as int) == scan_digits(
                    s,
                    p0,
                    (first - 48) as int,
                ),
            decreases s.len() - self.pos,
        {
            if self.pos >= self.input.len() {
                return Ok(TokenG::Integer(sum));
            }
            let b = self.input[self.pos];
            if b >= 48 && b <= 57 {
                let d = (b - 48) as i64;
                let wide: i128 = (sum as i128) * 10 + (d as i128);
                if wide > i64::MAX as i128 {
                    return Err(LuaError::Lexical(LexFault::NumberOverflow));
                }
                sum = wide as i64;
                self.pos += 1;
            } else if b == 46 || b == 101 || b == 69 {
                return Err(LuaError::Lexical(LexFault::UnsupportedNumericForm));
            } else {
                return Ok(TokenG::Integer(sum));
            }
        }
    }

    /// Scans the next token from the raw input, skipping whitespace and
    /// comments; meaningful only while no token is buffered.
    pub fn do_next(&mut self) -> (r: Result<Token, LuaError>)
        requires
            old(self).wf(),
            !old(self).buffered(),
        ensures
            final(self).wf(),
            !final(self).buffered(),
            final(self).src() == old(self).src(),
            match r {
                Ok(t) => lex_token(old(self).src(), old(self).at()) == Ok::<_, LuaError>(
                    (t@, final(self).at()),
                ),
                Err(e) => lex_token(old(self).src(), old(self).at()) == Err::<
                    (SpecToken, int),
                    LuaError,
                >(e),
            },
        decreases old(self).src().len() - old(self).at(),
    {
        let ghost s = self.input@;
        let ghost p0 = self.pos as int;
        if self.pos >= self.input.len() {
            return Ok(TokenG::EOS);
        }
        let b = self.read_char();
        if b == 32 || b == 9 || b == 13 || b == 10 {
            self.do_next()
        } else if b == 43 {
            Ok(TokenG::Add)
        } else if b == 42 {
            Ok(TokenG::Mul)
        } else if b == 37 {
            Ok(TokenG::Mod)
        } else if b == 94 {
            Ok(TokenG::Pow)
        } else if b == 35 {
            Ok(TokenG::Len)
        } else if b == 38 {
            Ok(TokenG::BitAnd)
        } else if b == 124 {
            Ok(TokenG::BitOr)
        } else if b == 40 {
            Ok(TokenG::ParL)
        } else if b == 41 {
            Ok(TokenG::ParR)
        } else if b == 91 {
            Ok(TokenG::CurlyL)
        } else if b == 93 {
            Ok(TokenG::CurlyR)
        } else if b == 123 {
            Ok(TokenG::SqurL)
        } else if b == 125 {
            Ok(TokenG::SqurR)
        } else if b == 59 {
            Ok(TokenG::SemiColon)
        } else if b == 44 {
            Ok(TokenG::Comma)
        } else if b == 39 || b == 34 {
            self.read_string(b)
        } else if b == 45 {
            if self.peek_byte() == 45 {
                let _ = self.read_char();
                self.read_comment();
                proof {
                    lemma_skip_comment_bounds(s, p0 + 2);
                }
                self.do_next()
            } else {
                Ok(TokenG::Sub)
            }
        } else if b == 58 {
            Ok(self.check_ahead_condition(58, TokenG::DoubColon, TokenG::Colon))
        } else if b == 126 {
            Ok(self.check_ahead_condition(61, TokenG::NotEq, TokenG::BitXor))
        } else if b == 61 {
            Ok(self.check_ahead_condition(61, TokenG::Equal, TokenG::Assign))
        } else if b == 47 {
            Ok(self.check_ahead_condition(47, TokenG::Idiv, TokenG::Div))
        } else if b == 62 {
            Ok(self.check_ahead_conditions(62, TokenG::ShiftR, 61, TokenG::GreEq, TokenG::Greater))
        } else if b == 60 {
            Ok(self.check_ahead_conditions(60, TokenG::ShiftL, 61, TokenG::LesEq, TokenG::Less))
        } else if (b >= 97 && b <= 122) || (b >= 65 && b <= 90) || b == 95 {
            Ok(self.read_name(b))
        } else if b >= 48 && b <= 57 {
            self.read_number(b)
        } else {
            Err(LuaError::Lexical(LexFault::UnexpectedByte))
        }
    }

    /// Returns and consumes the next token of the stream.
    pub fn next(&mut self) -> (r: Result<Token, LuaError>)
        requires
            old(self).wf(),
        ensures
            final(self).wf(),
            match r {
                Ok(t) => stream_next(old(self)@) == Ok::<_, LuaError>((t@, final(self)@))
                    && !final(self).buffered(),
                Err(e) => stream_next(old(self)@) == Err::<(SpecToken, TokView), LuaError>(e),
            },
    {
        let buffered = self.ahead.take();
        match buffered {
            Some(tok) => {
                proof {
                    if tok@ is EOS {
                        assert(lex_token(self.src(), self.at()) == Ok::<_, LuaError>(
                            (TokenG::<Seq<u8>>::EOS, self.at()),
                        ));
                        assert(self@ =~= old(self)@);
                    } else {
                        let rest = stream_from(self.src(), self.at());
                        assert((seq![tok@] + rest.toks).drop_first() =~= rest.toks);
                        assert(self@ =~= TokView {
                            toks: old(self)@.toks.drop_first(),
                            err: old(self)@.err,
                        });
                    }
                }
                Ok(tok)
            },
            None => {
                let ghost s = self.src();
                let ghost p0 = self.at();
                let r = self.do_next();
                match r {
                    Ok(t) => {
                        proof {
                            if t@ is EOS {
                                lemma_lex_eos(s, p0);
                                assert(stream_from(s, p0) == TokView {
                                    toks: Seq::<SpecToken>::empty(),
                                    err: None::<LuaError>,
                                });
                                assert(self@ =~= old(self)@);
                            } else {
                                lemma_lex_token_progress(s, p0);
                                let p2 = self.at();
                                let rest = stream_from(s, p2);
                                assert(stream_from(s, p0) == TokView {
                                    toks: seq![t@] + rest.toks,
                                    err: rest.err,
                                });
                                assert((seq![t@] + rest.toks).drop_first() =~= rest.toks);
                            }
                        }
                        Ok(t)
                    },
                    Err(e) => Err(e),
                }
            },
        }
    }

    /// Returns the next token without consuming it, buffering at most one.
    pub fn peek(&mut self) -> (r: Result<&Token, LuaError>)
        requires
            old(self).wf(),
        ensures
            final(self).wf(),
            match r {
                Ok(t) => {
                    &&& final(self)@ == old(self)@
                    &&& stream_next(old(self)@) is Ok
                    &&& stream_next(old(self)@)->Ok_0.0 == t@
                },
                Err(e) => stream_next(old(self)@) == Err::<(SpecToken, TokView), LuaError>(e),
            },
    {
        if self.ahead.is_none() {
            let ghost s = self.src();
            let ghost p0 = self.at();
            match self.do_next() {
                Ok(t) => {
                    proof {
                        if t@ is EOS {
                            lemma_lex_eos(s, p0);
                        } else {
                            lemma_lex_token_progress(s, p0);
                        }
                    }
                    self.ahead = Some(t);
                    proof {
                        if self.ahead_tok()->Some_0 is EOS {
                            assert(stream_from(s, p0) == TokView {
                                toks: Seq::<SpecToken>::empty(),
                                err: None::<LuaError>,
                            });
                            assert(self@ =~= old(self)@);
                        } else {
                            let p2 = self.at();
                            let rest = stream_from(s, p2);
                            assert(stream_from(s, p0) == TokView {
                                toks: seq![self.ahead_tok()->Some_0] + rest.toks,
                                err: rest.err,
                            });
                            assert(self@ =~= old(self)@);
                        }
                    }
                },
                Err(e) => {
                    return Err(e);
                },
            }
        }
        match &self.ahead {
            Some(t) => Ok(t),
            None => {
                // the buffer was filled just above; this arm is dead
                assert(false);
                Err(LuaError::Lexical(LexFault::UnexpectedByte))
            },
        }
    }
}

/// Whether a byte may continue an identifier.
pub(crate) fn cont_byte(b: u8) -> (r: bool)
    ensures
        r == is_name_cont(b),
{
    (b >= 97 && b <= 122) || (b >= 65 && b <= 90) || b == 95 || (b >= 48 && b <= 57)
}

/// Matches a completed identifier against the reserved-word table,
/// case-sensitively; unmatched names become `Name` tokens.
fn name_token(name: Vec<u8>) -> (t: Token)
    ensures
        t@ == spec_name_token(name@),
{
    let n = name.len();
    if n == 2 {
        let b0 = name[0];
        let b1 = name[1];
        if b0 == 100 && b1 == 111 {
            proof { assert(name@ =~= seq![100u8, 111u8]); }
            return TokenG::Do;
        }
        if b0 == 105 && b1 == 102 {
            proof { assert(name@ =~= seq![105u8, 102u8]); }
            return TokenG::If;
        }
        if b0 == 105 && b1 == 110 {
            proof { assert(name@ =~= seq![105u8, 110u8]); }
            return TokenG::In;
        }
        if b0 == 111 && b1 == 114 {
            proof { assert(name@ =~= seq![111u8, 114u8]); }
            return TokenG::Or;
        }
        return TokenG::Name(name);
    }
    if n == 3 {
        let b0 = name[0];
        let b1 = name[1];
        let b2 = name[2];
        if b0 == 97 && b1 == 110 && b2 == 100 {
            proof { assert(name@ =~= seq![97u8, 110u8, 100u8]); }
            return TokenG::And;
        }
        if b0 == 101 && b1 == 110 && b2 == 100 {
            proof { assert(name@ =~= seq![101u8, 110u8, 100u8]); }
            return TokenG::End;
        }
        if b0 == 102 && b1 == 111 && b2 == 114 {
            proof { assert(name@ =~= seq![102u8, 111u8, 114u8]); }
            return TokenG::For;
        }
        if b0 == 110 && b1 == 111 && b2 == 116 {
            proof { assert(name@ =~= seq![110u8, 111u8, 116u8]); }
            return TokenG::Not;
        }
        if b0 == 78 && b1 == 105 && b2 == 108 {
            proof { assert(name@ =~= seq![78u8, 105u8, 108u8]); }
            return TokenG::Nil;
        }
        return TokenG::Name(name);
    }
    if n == 4 {
        let b0 = name[0];
        let b1 = name[1];
        let b2 = name[2];
        let b3 = name[3];
        if b0 == 101 && b1 == 108 && b2 == 115 && b3 == 101 {
            proof { assert(name@ =~= seq![101u8, 108u8, 115u8, 101u8]); }
            return TokenG::Else;
        }
        if b0 == 103 && b1 == 111 && b2 == 116 && b3 == 111 {
            proof { assert(name@ =~= seq![103u8, 111u8, 116u8, 111u8]); }
            return TokenG::Goto;
        }
        if b0 == 116 && b1 == 104 && b2 == 101 && b3 == 110 {
            proof { assert(name@ =~= seq![116u8, 104u8, 101u8, 110u8]); }
            return TokenG::Then;
        }
        if b0 == 116 && b1 == 114 && b2 == 117 && b3 == 101 {
            proof { assert(name@ =~= seq![116u8, 114u8, 117u8, 101u8]); }
            return TokenG::True;
        }
        return TokenG::Name(name);
    }
    if n == 5 {
        let b0 = name[0];
        let b1 = name[1];
        let b2 = name[2];
        let b3 = name[3];
        let b4 = name[4];
        if b0 == 108 && b1 == 111 && b2 == 99 && b3 == 97 && b4 == 108 {
            proof { assert(name@ =~= seq![108u8, 111u8, 99u8, 97u8, 108u8]); }
            return TokenG::Local;
        }
        if b0 == 117 && b1 == 110 && b2 == 116 && b3 == 105 && b4 == 108 {
            proof { assert(name@ =~= seq![117u8, 110u8, 116u8, 105u8, 108u8]); }
            return TokenG::Until;
        }
        if b0 == 119 && b1 == 104 && b2 == 105 && b3 == 108 && b4 == 101 {
            proof { assert(name@ =~= seq![119u8, 104u8, 105u8, 108u8, 101u8]); }
            return TokenG::While;
        }
        if b0 == 102 && b1 == 97 && b2 == 108 && b3 == 115 && b4 == 101 {
            proof { assert(name@ =~= seq![102u8, 97u8, 108u8, 115u8, 101u8]); }
            return TokenG::False;
        }
        return TokenG::Name(name);
    }
    if n == 6 {
        let b0 = name[0];
        let b1 = name[1];
        let b2 = name[2];
        let b3 = name[3];
        let b4 = name[4];
        let b5 = name[5];
        if b0 == 101 && b1 == 108 && b2 == 115 && b3 == 101 && b4 == 105 && b5 == 102 {
            proof { assert(name@ =~= seq![101u8, 108u8, 115u8, 101u8, 105u8, 102u8]); }
            return TokenG::Elseif;
        }
        if b0 == 114 && b1 == 101 && b2 == 112 && b3 == 101 && b4 == 97 && b5 == 116 {
            proof { assert(name@ =~= seq![114u8, 101u8, 112u8, 101u8, 97u8, 116u8]); }
            return TokenG::Repeat;
        }
        if b0 == 114 && b1 == 101 && b2 == 116 && b3 == 117 && b4 == 114 && b5 == 110 {
            proof { assert(name@ =~= seq![114u8, 101u8, 116u8, 117u8, 114u8, 110u8]); }
            return TokenG::Return;
        }
        return TokenG::Name(name);
    }
    if n == 8 {
        let b0 = name[0];
        let b1 = name[1];
        let b2 = name[2];
        let b3 = name[3];
        let b4 = name[4];
        let b5 = name[5];
        let b6 = name[6];
        let b7 = name[7];
        if b0 == 102 && b1 == 117 && b2 == 110 && b3 == 99 && b4 == 116 && b5 == 105 && b6 == 111
            && b7 == 110 {
            proof {
                assert(name@ =~= seq![102u8, 117u8, 110u8, 99u8, 116u8, 105u8, 111u8, 110u8]);
            }
            return TokenG::Function;
        }
        return TokenG::Name(name);
    }
    TokenG::Name(name)
}

} // verus!
