use vstd::prelude::*;

use crate::lexer::{SpecToken, TokenG, byte_at, is_name_cont, is_white, scan_name, scan_str};
use crate::{LexFault, LuaError};

verus! {

/// The tokenizer shares the lexer's token vocabulary.
pub use crate::lexer::Token;

/// The earlier, simpler scanner kept alongside the full lexer: it knows
/// only double-quoted strings, whitespace, and undifferentiated names
/// (digits may begin one, and no reserved word is recognized).
pub open spec fn tok_next(s: Seq<u8>, pos: int) -> Result<(SpecToken, int), LuaError>
    decreases s.len() - pos,
{
    if pos < 0 {
        Err(LuaError::Lexical(LexFault::UnexpectedByte))
    } else if pos >= s.len() {
        Ok((TokenG::EOS, pos))
    } else {
        let b = s[pos];
        if b == 34 {  // '"'
            match scan_str(s, pos + 1, 34, Seq::empty()) {
                Err(e) => Err(e),
                Ok((body, p)) => Ok((TokenG::Str(body), p)),
            }
        } else if is_white(b) {
            tok_next(s, pos + 1)
        } else if is_name_cont(b) {
            let (nm, p) = scan_name(s, pos + 1, seq![b]);
            Ok((TokenG::Name(nm), p))
        } else {
            Err(LuaError::Lexical(LexFault::UnexpectedByte))
        }
    }
}

/// A plain byte scanner over the source, with no token lookahead.
pub struct Tokenizer {
    input: Vec<u8>,
    pos: usize,
}

impl Tokenizer {
    /// The input bytes.
    pub closed spec fn src(self) -> Seq<u8> {
        self.input@
    }

    /// The cursor: the position of the next byte to scan.
    pub closed spec fn at(self) -> int {
        self.pos as int
    }

    /// The cursor never leaves the input.
    pub open spec fn wf(self) -> bool {
        self.at() <= self.src().len()
    }

    /// A tokenizer over the given source bytes.
    pub fn new(input: Vec<u8>) -> (r: Tokenizer)
        ensures
            r.wf(),
            r.src() == input@,
            r.at() == 0,
    {
        Tokenizer { input, pos: 0 }
    }

    /// Reads and consumes one byte; 0 at end of input, without moving.
    pub fn read_char(&mut self) -> (b: u8)
        requires
            old(self).wf(),
        ensures
            final(self).wf(),
            b == byte_at(old(self).src(), old(self).at()),
            final(self).src() == old(self).src(),
            final(self).at() == if old(self).at() < old(self).src().len() {
                old(self).at() + 1
            } else {
                old(self).at()
            },
    {
        if self.pos < self.input.len() {
            let b = self.input[self.pos];
            self.pos += 1;
            b
        } else {
            0
        }
    }

    /// Returns and consumes the next token: a double-quoted string, a bare
    /// name, or the end sentinel; anything else is a fatal lexical fault.
    #[verifier::loop_isolation(false)]
    pub fn next(&mut self) -> (r: Result<Token, LuaError>)
        requires
            old(self).wf(),
        ensures
            final(self).wf(),
            final(self).src() == old(self).src(),
            match r {
                Ok(t) => tok_next(old(self).src(), old(self).at()) == Ok::<_, LuaError>(
                    (t@, final(self).at()),
                ),
                Err(e) => tok_next(old(self).src(), old(self).at()) == Err::<
                    (SpecToken, int),
                    LuaError,
                >(e),
            },
        decreases old(self).src().len() - old(self).at(),
    {
        let ghost s = self.input@;
        let ghost p0 = self.pos as int;
        if self.pos >= self.input.len() {
            return Ok(TokenG::EOS);
        }
        let b = self.read_char();
        if b == 34 {
            let mut acc: Vec<u8> = Vec::new();
            loop
                invariant
                    self.wf(),
                    self.input@ == s,
                    p0 + 1 <= self.pos as int,
                    scan_str(s, self.pos as int, 34, acc@) == scan_str(
                        s,
                        p0 + 1,
                        34,
                        Seq::empty(),
                    ),
                decreases s.len() - self.pos,
            {
                if self.pos >= self.input.len() {
                    return Err(LuaError::Lexical(LexFault::UnterminatedString));
                }
                let c = self.input[self.pos];
                self.pos += 1;
                if c == 34 {
                    return Ok(TokenG::Str(acc));
                }
                acc.push(c);
            }
        } else if b == 32 || b == 9 || b == 13 || b == 10 {
            self.next()
        } else if (b >= 97 && b <= 122) || (b >= 65 && b <= 90) || b == 95 || (b >= 48 && b <= 57) {
            let mut name: Vec<u8> = Vec::new();
            name.push(b);
            while self.pos < self.input.len() && crate::lexer::cont_byte(self.input[self.pos])
                invariant
                    self.wf(),
                    self.input@ == s,
                    p0 <= self.pos as int,
                    scan_name(s, self.pos as int, name@) == scan_name(s, p0 + 1, seq![b]),
                decreases s.len() - self.pos,
            {
                name.push(self.input[self.pos]);
                self.pos += 1;
            }
            Ok(TokenG::Name(name))
        } else {
            Err(LuaError::Lexical(LexFault::UnexpectedByte))
        }
    }
}

} // verus!
