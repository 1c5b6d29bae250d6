use vstd::prelude::*;
use crate::text::{
    all_digits, char_at, chars_of, decimal_of, is_decimal_digit, is_digit, is_space,
    is_whitespace, saturated_value, string_of, unsigned_value,
};
use crate::token::{Tok, Token, TokenKind, TokenModel};

verus! {

/// Why a line could not be scanned.
#[derive(Debug, Clone, Copy, PartialEq, Eq, Structural)]
pub enum ScanErrorKind {
    UnexpectedCharacter,
    UnexpectedSlash,
    UnexpectedJump,
    UnterminatedLabel,
    LabelStartsWithDigit,
}

impl ScanErrorKind {
    pub fn description(&self) -> &'static str {
        match self {
            ScanErrorKind::UnexpectedCharacter => "Unexpected character",
            ScanErrorKind::UnexpectedSlash => "Unexpected slash character",
            ScanErrorKind::UnexpectedJump => "Unexpected jump type",
            ScanErrorKind::UnterminatedLabel => "Expected Symbol to be terminated by closing )",
            ScanErrorKind::LabelStartsWithDigit => "Symbol cannot start with a digit",
        }
    }
}

/// A scan failure and the line it happened on.
#[derive(Debug, Clone, Copy, PartialEq, Eq, Structural)]
pub struct ScannerError {
    pub kind: ScanErrorKind,
    pub line: u32,
}

impl ScannerError {
    fn new(kind: ScanErrorKind, line: u32) -> (r: ScannerError)
        ensures
            r == (ScannerError { kind, line }),
    {
        ScannerError { kind: kind, line: line }
    }
}

/// The runs of characters that a token may extend over.
pub enum Run {
    /// Whitespace skipped between tokens.
    Space,
    /// Anything up to whitespace or the end of the line.
    Word,
    /// A label's name: up to `)`, whitespace or the end of the line.
    Name,
    /// Decimal digits.
    Digits,
}

pub open spec fn in_run(run: Run, c: char) -> bool {
    match run {
        Run::Space => is_space(c),
        Run::Word => !is_space(c) && c != '\0',
        Run::Name => !is_space(c) && c != '\0' && c != ')',
        Run::Digits => is_digit(c),
    }
}

/// The first index at or after `i` whose character is not in the run.
pub open spec fn run_end(s: Seq<char>, i: int, run: Run) -> int
    decreases s.len() - i,
{
    if 0 <= i < s.len() && in_run(run, s[i]) {
        run_end(s, i + 1, run)
    } else {
        i
    }
}

/// The token named by a jump mnemonic.
pub open spec fn jump_keyword(w: Seq<char>) -> Option<Tok> {
    if w == "JGT"@ {
        Some(Tok::JumpGreaterThan)
    } else if w == "JEQ"@ {
        Some(Tok::JumpEqual)
    } else if w == "JGE"@ {
        Some(Tok::JumpGreaterThanEqual)
    } else if w == "JLT"@ {
        Some(Tok::JumpLessThan)
    } else if w == "JNE"@ {
        Some(Tok::JumpNotEqual)
    } else if w == "JLE"@ {
        Some(Tok::JumpLessThanEqual)
    } else if w == "JMP"@ {
        Some(Tok::Jump)
    } else {
        None
    }
}

/// The token named by a single character, if it is one of `A D M = - + & | ! ;`.
pub open spec fn single_char_token(c: char) -> Option<Tok> {
    if c == 'A' {
        Some(Tok::ARegister)
    } else if c == 'D' {
        Some(Tok::DRegister)
    } else if c == 'M' {
        Some(Tok::Memory)
    } else if c == '=' {
        Some(Tok::Equal)
    } else if c == '-' {
        Some(Tok::Minus)
    } else if c == '+' {
        Some(Tok::Plus)
    } else if c == '&' {
        Some(Tok::And)
    } else if c == '|' {
        Some(Tok::Or)
    } else if c == '!' {
        Some(Tok::Not)
    } else if c == ';' {
        Some(Tok::Semicolon)
    } else {
        None
    }
}

/// One step of the scanner on line `s` from position `pos`: the token or error found,
/// the position after it, and whether the line has ended.
pub open spec fn scan_step(s: Seq<char>, pos: int) -> (Result<Tok, ScanErrorKind>, int, bool) {
    let p = run_end(s, pos, Run::Space);
    let c = char_at(s, p);
    let q = p + 1;
    if c == '\0' {
        (Ok(Tok::NewLine), if p < s.len() { q } else { p }, true)
    } else if c == '@' {
        let e = run_end(s, q, Run::Word);
        let t = s.subrange(q, e);
        (
            Ok(
                match unsigned_value(t) {
                    Some(n) => Tok::Address(n),
                    None => Tok::Symbol(t),
                },
            ),
            e,
            false,
        )
    } else if c == '(' {
        if is_digit(char_at(s, q)) {
            (Err(ScanErrorKind::LabelStartsWithDigit), q, false)
        } else {
            let e = run_end(s, q, Run::Name);
            if char_at(s, e) != ')' {
                (Err(ScanErrorKind::UnterminatedLabel), e, false)
            } else {
                (Ok(Tok::Label(s.subrange(q, e))), e + 1, false)
            }
        }
    } else if single_char_token(c) is Some {
        (Ok(single_char_token(c)->0), q, false)
    } else if c == '/' {
        if char_at(s, q) == '/' {
            (Ok(Tok::NewLine), s.len() as int, true)
        } else {
            (Err(ScanErrorKind::UnexpectedSlash), q, false)
        }
    } else if c == 'J' {
        let e = run_end(s, q, Run::Word);
        match jump_keyword(s.subrange(p, e)) {
            Some(k) => (Ok(k), e, false),
            None => (Err(ScanErrorKind::UnexpectedJump), e, false),
        }
    } else if is_digit(c) {
        let e = run_end(s, q, Run::Digits);
        (Ok(Tok::Number(saturated_value(s.subrange(p, e)))), e, false)
    } else {
        (Err(ScanErrorKind::UnexpectedCharacter), q, false)
    }
}

pub proof fn lemma_run_end(s: Seq<char>, i: int, run: Run)
    requires
        0 <= i <= s.len(),
    ensures
        i <= run_end(s, i, run) <= s.len(),
        forall|j: int| i <= j < run_end(s, i, run) ==> in_run(run, #[trigger] s[j]),
        run_end(s, i, run) < s.len() ==> !in_run(run, s[run_end(s, i, run)]),
    decreases s.len() - i,
{
    if i < s.len() && in_run(run, s[i]) {
        lemma_run_end(s, i + 1, run);
    }
}

/// A step that does not end the line moves forward and stays within it.
pub proof fn lemma_step_advances(s: Seq<char>, pos: int)
    requires
        0 <= pos <= s.len(),
    ensures
        ({
            let (r, np, ended) = scan_step(s, pos);
            (r is Ok && !ended) ==> pos < np <= s.len()
        }),
        ({
            let (r, np, ended) = scan_step(s, pos);
            ended ==> pos <= np <= s.len()
        }),
{
    let p = run_end(s, pos, Run::Space);
    lemma_run_end(s, pos, Run::Space);
    if p < s.len() {
        lemma_run_end(s, p + 1, Run::Word);
        lemma_run_end(s, p + 1, Run::Name);
        lemma_run_end(s, p + 1, Run::Digits);
    }
}

/// The result of putting `ts` in front of the tokens of `r`.
pub open spec fn prepend(ts: Seq<TokenModel>, r: Result<Seq<TokenModel>, ScannerError>) -> Result<
    Seq<TokenModel>,
    ScannerError,
> {
    match r {
        Ok(rest) => Ok(ts + rest),
        Err(e) => Err(e),
    }
}

/// The tokens of line `s` from position `pos` on, up to and including the
/// line-terminator, or the first error.
pub open spec fn scan_from(s: Seq<char>, pos: nat, line: u32) -> Result<
    Seq<TokenModel>,
    ScannerError,
>
    decreases s.len() - pos,
{
    let (r, np, ended) = scan_step(s, pos as int);
    match r {
        Err(k) => Err(ScannerError { kind: k, line }),
        Ok(t) => {
            let tok = TokenModel { kind: t, line };
            // A step that does not end the line always moves forward within it
            // (`lemma_step_advances`); the bounds here only make that visible to termination.
            if ended || np <= pos || np > s.len() {
                Ok(seq![tok])
            } else {
                prepend(seq![tok], scan_from(s, np as nat, line))
            }
        },
    }
}

/// The tokens of a whole line, or the first error in it.
pub open spec fn scan_line(s: Seq<char>, line: u32) -> Result<Seq<TokenModel>, ScannerError> {
    scan_from(s, 0, line)
}

/// A lexer over one line of source text.
pub struct Scanner {
    chars: Vec<char>,
    pos: usize,
    ended: bool,
    did_error: bool,
    line_num: u32,
}

impl Scanner {
    /// The characters of the line.
    pub closed spec fn text(&self) -> Seq<char> {
        self.chars@
    }

    /// The position of the next character to read.
    pub closed spec fn position(&self) -> nat {
        self.pos as nat
    }

    /// Whether the line-terminator has been produced.
    pub closed spec fn is_ended(&self) -> bool {
        self.ended
    }

    /// Whether an error has been produced.
    pub closed spec fn has_failed(&self) -> bool {
        self.did_error
    }

    pub closed spec fn line_number(&self) -> u32 {
        self.line_num
    }

    pub closed spec fn wf(&self) -> bool {
        self.pos <= self.chars@.len()
    }

    /// The scanner never reads past the end of its line.
    pub proof fn lemma_position(&self)
        requires
            self.wf(),
        ensures
            self.position() <= self.text().len(),
    {
    }

    /// The tokens that the remaining calls of `next` yield, or the error that ends them.
    pub open spec fn remaining(&self) -> Result<Seq<TokenModel>, ScannerError> {
        if self.is_ended() || self.has_failed() {
            Ok(Seq::empty())
        } else {
            scan_from(self.text(), self.position(), self.line_number())
        }
    }

    /// A scanner over `line`, whose tokens carry `line_num`.
    pub fn new(line: &str, line_num: u32) -> (r: Scanner)
        ensures
            r.wf(),
            r.text() == line@,
            r.position() == 0,
            !r.is_ended(),
            !r.has_failed(),
            r.line_number() == line_num,
            r.remaining() == scan_line(line@, line_num),
    {
        Scanner { chars: chars_of(line), pos: 0, ended: false, did_error: false, line_num: line_num }
    }

    /// A scanner over a line given as its characters.
    pub fn from_chars(chars: Vec<char>, line_num: u32) -> (r: Scanner)
        ensures
            r.wf(),
            r.text() == chars@,
            r.position() == 0,
            !r.is_ended(),
            !r.has_failed(),
            r.line_number() == line_num,
            r.remaining() == scan_line(chars@, line_num),
    {
        Scanner { chars: chars, pos: 0, ended: false, did_error: false, line_num: line_num }
    }

    fn peek_at(&self, i: usize) -> (c: char)
        ensures
            c == char_at(self.chars@, i as int),
    {
        if i < self.chars.len() {
            self.chars[i]
        } else {
            '\0'
        }
    }

    fn run_end(&self, i: usize, run: &Run) -> (e: usize)
        requires
            self.wf(),
            i <= self.chars@.len(),
        ensures
            e == run_end(self.chars@, i as int, *run),
    {
        proof {
            lemma_run_end(self.chars@, i as int, *run);
        }
        let mut j: usize = i;
        while j < self.chars.len()
            invariant
                self.wf(),
                i <= j <= self.chars@.len(),
                run_end(self.chars@, j as int, *run) == run_end(self.chars@, i as int, *run),
            decreases self.chars@.len() - j,
        {
            let c = self.chars[j];
            let inside = match run {
                Run::Space => is_whitespace(c),
                Run::Word => !is_whitespace(c) && c != '\0',
                Run::Name => !is_whitespace(c) && c != '\0' && c != ')',
                Run::Digits => is_decimal_digit(c),
            };
            if !inside {
                return j;
            }
            j += 1;
        }
        j
    }

    fn token(&self, kind: TokenKind) -> (r: Token)
        ensures
            r.kind == kind,
            r.line == self.line_num,
    {
        Token::new(kind, self.line_num)
    }

    fn scanner_error(&self, kind: ScanErrorKind) -> (r: ScannerError)
        ensures
            r == (ScannerError { kind, line: self.line_num }),
    {
        ScannerError::new(kind, self.line_num)
    }

    /// Scans the next token of the line.
    pub fn parse_token(&mut self) -> (r: Result<Token, ScannerError>)
        requires
            old(self).wf(),
        ensures
            final(self).wf(),
            final(self).text() == old(self).text(),
            final(self).line_number() == old(self).line_number(),
            final(self).has_failed() == old(self).has_failed(),
            ({
                let (step, np, ended) = scan_step(old(self).text(), old(self).position() as int);
                &&& match step {
                    Ok(t) => r matches Ok(tok) && tok@ == (TokenModel {
                        kind: t,
                        line: old(self).line_number(),
                    }),
                    Err(k) => r == Err::<Token, ScannerError>(
                        ScannerError { kind: k, line: old(self).line_number() },
                    ),
                }
                &&& step is Ok ==> final(self).position() == np && final(self).is_ended() == ended
            }),
    {
        let ghost s = self.chars@;
        proof {
            lemma_run_end(s, self.pos as int, Run::Space);
        }
        let p = self.run_end(self.pos, &Run::Space);
        let c = self.peek_at(p);
        if c == '\0' {
            if p < self.chars.len() {
                self.pos = p + 1;
            } else {
                self.pos = p;
            }
            self.ended = true;
            return Ok(self.token(TokenKind::NewLine));
        }
        let n = self.chars.len();
        assert(p < n);
        self.ended = false;
        let q = p + 1;
        if c == '@' {
            let e = self.run_end(q, &Run::Word);
            proof {
                lemma_run_end(s, q as int, Run::Word);
            }
            self.pos = e;
            let value = self.address_value(q, e);
            match value {
                Some(n) => Ok(self.token(TokenKind::Address(n))),
                None => {
                    let name = string_of(&self.chars, q, e);
                    Ok(self.token(TokenKind::Symbol(name)))
                },
            }
        } else if c == '(' {
            if is_decimal_digit(self.peek_at(q)) {
                self.pos = q;
                return Err(self.scanner_error(ScanErrorKind::LabelStartsWithDigit));
            }
            let e = self.run_end(q, &Run::Name);
            proof {
                lemma_run_end(s, q as int, Run::Name);
            }
            if self.peek_at(e) != ')' {
                self.pos = e;
                return Err(self.scanner_error(ScanErrorKind::UnterminatedLabel));
            }
            let name = string_of(&self.chars, q, e);
            self.pos = e + 1;
            Ok(self.token(TokenKind::Label(name)))
        } else if c == 'A' || c == 'D' || c == 'M' || c == '=' || c == '-' || c == '+' || c == '&'
            || c == '|' || c == '!' || c == ';' {
            self.pos = q;
            let kind = if c == 'A' {
                TokenKind::ARegister
            } else if c == 'D' {
                TokenKind::DRegister
            } else if c == 'M' {
                TokenKind::Memory
            } else if c == '=' {
                TokenKind::Equal
            } else if c == '-' {
                TokenKind::Minus
            } else if c == '+' {
                TokenKind::Plus
            } else if c == '&' {
                TokenKind::And
            } else if c == '|' {
                TokenKind::Or
            } else if c == '!' {
                TokenKind::Not
            } else {
                TokenKind::Semicolon
            };
            Ok(self.token(kind))
        } else if c == '/' {
            if self.peek_at(q) == '/' {
                self.pos = self.chars.len();
                self.ended = true;
                Ok(self.token(TokenKind::NewLine))
            } else {
                self.pos = q;
                Err(self.scanner_error(ScanErrorKind::UnexpectedSlash))
            }
        } else if c == 'J' {
            let e = self.run_end(q, &Run::Word);
            proof {
                lemma_run_end(s, q as int, Run::Word);
            }
            self.pos = e;
            let kind = self.jump_keyword(p, e);
            match kind {
                Some(k) => Ok(self.token(k)),
                None => Err(self.scanner_error(ScanErrorKind::UnexpectedJump)),
            }
        } else if is_decimal_digit(c) {
            let e = self.run_end(q, &Run::Digits);
            proof {
                lemma_run_end(s, q as int, Run::Digits);
                assert(all_digits(s.subrange(p as int, e as int)));
            }
            self.pos = e;
            let n = match decimal_of(&self.chars, p, e) {
                Some(n) => n,
                None => u32::MAX,
            };
            Ok(self.token(TokenKind::Number(n)))
        } else {
            self.pos = q;
            Err(self.scanner_error(ScanErrorKind::UnexpectedCharacter))
        }
    }

    /// The value of `chars[from..to]` read as an unsigned integer, if it is one.
    fn address_value(&self, from: usize, to: usize) -> (r: Option<u32>)
        requires
            from <= to <= self.chars@.len(),
        ensures
            r == unsigned_value(self.chars@.subrange(from as int, to as int)),
    {
        let ghost t = self.chars@.subrange(from as int, to as int);
        let start = if from < to && self.chars[from] == '+' {
            from + 1
        } else {
            from
        };
        let ghost d = if t.len() > 0 && t[0] == '+' {
            t.skip(1)
        } else {
            t
        };
        assert(self.chars@.subrange(start as int, to as int) =~= d);
        if start == to {
            assert(d.len() == 0);
            return None;
        }
        let mut i: usize = start;
        while i < to
            invariant
                start <= i <= to <= self.chars@.len(),
                start < to,
                all_digits(self.chars@.subrange(start as int, i as int)),
                t == self.chars@.subrange(from as int, to as int),
                d == self.chars@.subrange(start as int, to as int),
                d == (if t.len() > 0 && t[0] == '+' {
                    t.skip(1)
                } else {
                    t
                }),
            decreases to - i,
        {
            if !is_decimal_digit(self.chars[i]) {
                assert(self.chars@.subrange(start as int, to as int)[i - start] == self.chars@[i as int]);
                assert(!all_digits(self.chars@.subrange(start as int, to as int)));
                return None;
            }
            assert(all_digits(self.chars@.subrange(start as int, i + 1))) by {
                let a = self.chars@.subrange(start as int, i as int);
                let b = self.chars@.subrange(start as int, i + 1);
                assert forall|j: int| 0 <= j < b.len() implies is_digit(#[trigger] b[j]) by {
                    if j < a.len() {
                        assert(b[j] == a[j]);
                    }
                }
            }
            i += 1;
        }
        decimal_of(&self.chars, start, to)
    }

    /// The jump token spelled by `chars[from..to]`, if it spells one.
    fn jump_keyword(&self, from: usize, to: usize) -> (r: Option<TokenKind>)
        requires
            from <= to <= self.chars@.len(),
        ensures
            match jump_keyword(self.chars@.subrange(from as int, to as int)) {
                Some(t) => r matches Some(k) && k@ == t,
                None => r is None,
            },
    {
        proof {
            reveal_strlit("JGT");
            reveal_strlit("JEQ");
            reveal_strlit("JGE");
            reveal_strlit("JLT");
            reveal_strlit("JNE");
            reveal_strlit("JLE");
            reveal_strlit("JMP");
        }
        let ghost w = self.chars@.subrange(from as int, to as int);
        if to - from != 3 || self.chars[from] != 'J' {
            assert(w != "JGT"@ && w != "JEQ"@ && w != "JGE"@ && w != "JLT"@ && w != "JNE"@ && w
                != "JLE"@ && w != "JMP"@) by {
                if w.len() == 3 {
                    assert(w[0] == self.chars@[from as int]);
                }
            }
            return None;
        }
        let b = self.chars[from + 1];
        let c = self.chars[from + 2];
        assert(w[1] == b && w[2] == c && w[0] == 'J');
        if b == 'G' && c == 'T' {
            assert(w =~= "JGT"@);
            Some(TokenKind::JumpGreaterThan)
        } else if b == 'E' && c == 'Q' {
            assert(w =~= "JEQ"@);
            Some(TokenKind::JumpEqual)
        } else if b == 'G' && c == 'E' {
            assert(w =~= "JGE"@);
            Some(TokenKind::JumpGreaterThanEqual)
        } else if b == 'L' && c == 'T' {
            assert(w =~= "JLT"@);
            Some(TokenKind::JumpLessThan)
        } else if b == 'N' && c == 'E' {
            assert(w =~= "JNE"@);
            Some(TokenKind::JumpNotEqual)
        } else if b == 'L' && c == 'E' {
            assert(w =~= "JLE"@);
            Some(TokenKind::JumpLessThanEqual)
        } else if b == 'M' && c == 'P' {
            assert(w =~= "JMP"@);
            Some(TokenKind::Jump)
        } else {
            None
        }
    }

    /// Yields the next token of the line; nothing after the line-terminator or after an error.
    pub fn next(&mut self) -> (r: Option<Result<Token, ScannerError>>)
        requires
            old(self).wf(),
        ensures
            final(self).wf(),
            final(self).text() == old(self).text(),
            final(self).line_number() == old(self).line_number(),
            old(self).is_ended() || old(self).has_failed() ==> r is None && *final(self) == *old(
                self,
            ),
            !(old(self).is_ended() || old(self).has_failed()) ==> {
                let (step, np, ended) = scan_step(old(self).text(), old(self).position() as int);
                &&& match step {
                    Ok(t) => r matches Some(Ok(tok)) && tok@ == (TokenModel {
                        kind: t,
                        line: old(self).line_number(),
                    }) && !final(self).has_failed() && final(self).position() == np
                        && final(self).is_ended() == ended,
                    Err(k) => r == Some(
                        Err::<Token, ScannerError>(
                            ScannerError { kind: k, line: old(self).line_number() },
                        ),
                    ) && final(self).has_failed(),
                }
            },
    {
        if self.ended {
            return None;
        }
        if self.did_error {
            return None;
        }
        match self.parse_token() {
            Ok(t) => Some(Ok(t)),
            Err(err) => {
                self.did_error = true;
                Some(Err(err))
            },
        }
    }
}

} // verus!
