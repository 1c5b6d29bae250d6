use vstd::prelude::*;
use crate::scanner::{prepend, scan_from, scan_line, lemma_step_advances, scan_step, Scanner, ScannerError};
use crate::text::chars_of;
use crate::token::{Tok, Token, TokenKind, TokenModel, tokens_view};

verus! {

/// The end of the line that starts at `i`: just past its `'\n'`, or the end of the text.
pub open spec fn line_end(s: Seq<char>, i: int) -> int
    decreases s.len() - i,
{
    if i >= s.len() {
        s.len() as int
    } else if s[i] == '\n' {
        i + 1
    } else {
        line_end(s, i + 1)
    }
}

pub proof fn lemma_line_end(s: Seq<char>, i: int)
    requires
        0 <= i < s.len(),
    ensures
        i < line_end(s, i) <= s.len(),
    decreases s.len() - i,
{
    if s[i] != '\n' {
        if i + 1 < s.len() {
            lemma_line_end(s, i + 1);
        } else {
            assert(line_end(s, i + 1) == s.len());
        }
    }
}

/// The tokens a line contributes to the program: none where it holds only a line-terminator.
pub open spec fn kept(ts: Seq<TokenModel>) -> Seq<TokenModel> {
    if ts.len() > 0 && ts[0].kind != Tok::NewLine {
        ts
    } else {
        Seq::empty()
    }
}

/// The tokens of the lines of `s` from position `i` on, the first of which is line `line`,
/// or the first scan error among them.
pub open spec fn tokens_from(s: Seq<char>, i: nat, line: u32) -> Result<
    Seq<TokenModel>,
    ScannerError,
>
    decreases s.len() - i,
{
    if i >= s.len() {
        Ok(Seq::empty())
    } else {
        let e = line_end(s, i as int);
        match scan_line(s.subrange(i as int, e), line) {
            Err(err) => Err(err),
            // Every line holds at least one character (`lemma_line_end`).
            Ok(ts) => if i < e <= s.len() {
                prepend(kept(ts), tokens_from(s, e as nat, (line + 1) as u32))
            } else {
                Ok(kept(ts))
            },
        }
    }
}

/// The token stream of a whole source text: the tokens of its lines followed by an
/// end-of-input token one line past the last token, or the first scan error.
pub open spec fn tokenized(s: Seq<char>) -> Result<Seq<TokenModel>, ScannerError> {
    match tokens_from(s, 0, 1) {
        Err(e) => Err(e),
        Ok(ts) => {
            let last = if ts.len() > 0 {
                ts.last().line
            } else {
                0
            };
            Ok(ts.push(TokenModel { kind: Tok::EOF, line: (last + 1) as u32 }))
        },
    }
}

/// Every token scanned from a line carries that line's number.
pub proof fn lemma_scan_lines(s: Seq<char>, pos: nat, line: u32)
    requires
        pos <= s.len(),
    ensures
        scan_from(s, pos, line) matches Ok(ts) ==> forall|k: int|
            0 <= k < ts.len() ==> (#[trigger] ts[k]).line == line,
    decreases s.len() - pos,
{
    let (r, np, ended) = scan_step(s, pos as int);
    lemma_step_advances(s, pos as int);
    if r is Ok && !ended && pos < np <= s.len() {
        lemma_scan_lines(s, np as nat, line);
    }
}

/// Every token of the lines from `i` on carries a line number from `line` up to, but not
/// including, `line` plus the number of characters left.
pub proof fn lemma_tokens_lines(s: Seq<char>, i: nat, line: u32)
    requires
        i <= s.len(),
        line as int + s.len() - i <= u32::MAX,
    ensures
        tokens_from(s, i, line) matches Ok(ts) ==> forall|k: int|
            0 <= k < ts.len() ==> line <= (#[trigger] ts[k]).line < line + s.len() - i,
    decreases s.len() - i,
{
    if i < s.len() {
        let e = line_end(s, i as int);
        lemma_line_end(s, i as int);
        lemma_scan_lines(s.subrange(i as int, e), 0, line);
        lemma_tokens_lines(s, e as nat, (line + 1) as u32);
        if let Ok(ts) = tokens_from(s, i, line) {
            if let Ok(first) = scan_line(s.subrange(i as int, e), line) {
                if let Ok(rest) = tokens_from(s, e as nat, (line + 1) as u32) {
                    assert forall|k: int| 0 <= k < ts.len() implies line <= (#[trigger] ts[k]).line
                        < line + s.len() - i by {
                        if k < kept(first).len() {
                            assert(ts[k] == kept(first)[k]);
                        } else {
                            assert(ts[k] == rest[k - kept(first).len()]);
                        }
                    }
                }
            }
        }
    }
}

/// Splits source text into lines, each ending after its `'\n'`, and hands out a scanner
/// for each, numbered from 1.
pub struct Scanlines {
    chars: Vec<char>,
    pos: usize,
    line_num: u32,
}

impl Scanlines {
    pub closed spec fn text(&self) -> Seq<char> {
        self.chars@
    }

    /// Where the next line starts.
    pub closed spec fn position(&self) -> nat {
        self.pos as nat
    }

    /// How many lines have been handed out.
    pub closed spec fn lines_read(&self) -> u32 {
        self.line_num
    }

    pub closed spec fn wf(&self) -> bool {
        &&& self.pos <= self.chars@.len()
        &&& self.line_num <= self.pos
        &&& self.chars@.len() < u32::MAX
    }

    pub fn new(text: &str) -> (r: Scanlines)
        requires
            text@.len() < u32::MAX,
        ensures
            r.wf(),
            r.text() == text@,
            r.position() == 0,
            r.lines_read() == 0,
    {
        Scanlines { chars: chars_of(text), pos: 0, line_num: 0 }
    }

    /// A scanner over the next line, or `None` at the end of the text.
    pub fn next(&mut self) -> (r: Option<Scanner>)
        requires
            old(self).wf(),
        ensures
            final(self).wf(),
            final(self).text() == old(self).text(),
            old(self).position() >= old(self).text().len() ==> r is None && *final(self) == *old(
                self,
            ),
            old(self).position() < old(self).text().len() ==> {
                let e = line_end(old(self).text(), old(self).position() as int);
                &&& r matches Some(sc) && sc.wf() && sc.text() == old(self).text().subrange(
                    old(self).position() as int,
                    e,
                ) && sc.line_number() == old(self).lines_read() + 1 && sc.remaining()
                    == scan_line(sc.text(), sc.line_number())
                &&& final(self).position() == e
                &&& final(self).lines_read() == old(self).lines_read() + 1
            },
    {
        if self.pos >= self.chars.len() {
            return None;
        }
        proof {
            lemma_line_end(self.chars@, self.pos as int);
        }
        let start = self.pos;
        let mut line: Vec<char> = Vec::new();
        let mut i: usize = start;
        loop
            invariant_except_break
                line_end(self.chars@, i as int) == line_end(self.chars@, start as int),
            invariant
                start <= i <= self.chars@.len(),
                start < self.chars@.len(),
                line@ == self.chars@.subrange(start as int, i as int),
            ensures
                i == line_end(self.chars@, start as int),
                line@ == self.chars@.subrange(start as int, i as int),
            decreases self.chars@.len() - i,
        {
            if i >= self.chars.len() {
                break;
            }
            let c = self.chars[i];
            line.push(c);
            i += 1;
            if c == '\n' {
                break;
            }
        }
        self.pos = i;
        self.line_num = self.line_num + 1;
        Some(Scanner::from_chars(line, self.line_num))
    }
}

pub proof fn lemma_prepend_assoc(
    a: Seq<TokenModel>,
    b: Seq<TokenModel>,
    r: Result<Seq<TokenModel>, ScannerError>,
)
    ensures
        prepend(a, prepend(b, r)) == prepend(a + b, r),
{
    if let Ok(rest) = r {
        assert(a + (b + rest) =~= (a + b) + rest);
    }
}

/// Scans a whole source text into its token stream, ending in an end-of-input token.
/// Lines that hold only a line-terminator contribute nothing; the first scan error
/// stops the run.
pub fn tokenize(text: &str) -> (r: Result<Vec<Token>, ScannerError>)
    requires
        text@.len() < u32::MAX,
    ensures
        match tokenized(text@) {
            Ok(ts) => r matches Ok(v) && tokens_view(v@) == ts,
            Err(e) => r == Err::<Vec<Token>, ScannerError>(e),
        },
{
    let mut tokens: Vec<Token> = Vec::new();
    let mut sl = Scanlines::new(text);
    proof {
        lemma_tokens_lines(text@, 0, 1);
        assert(tokens_view(tokens@) =~= Seq::empty());
        assert(Seq::<TokenModel>::empty() + tokens_from(text@, 0, 1)->Ok_0 =~= tokens_from(text@, 0, 1)->Ok_0);
    }
    loop
        invariant
            sl.wf(),
            sl.text() == text@,
            tokens_from(text@, 0, 1) == prepend(
                tokens_view(tokens@),
                tokens_from(text@, sl.position(), (sl.lines_read() + 1) as u32),
            ),
        ensures
            sl.position() >= text@.len(),
            tokens_from(text@, 0, 1) == prepend(tokens_view(tokens@), tokens_from(text@, sl.position(), (sl.lines_read() + 1) as u32)),
        decreases text@.len() - sl.position(),
    {
        let ghost before = sl;
        let next = sl.next();
        match next {
            None => {
                break;
            },
            Some(mut scanner) => {
                let ghost ln = scanner.line_number();
                let ghost s = scanner.text();
                let mut line_tokens: Vec<Token> = Vec::new();
                proof {
                    assert(tokens_view(line_tokens@) =~= Seq::empty());
                    if let Ok(ts) = scan_line(s, ln) {
                        assert(Seq::<TokenModel>::empty() + ts =~= ts);
                    }
                }
                loop
                    invariant
                        sl.wf(),
                        sl.text() == text@,
                        before.position() < text@.len(),
                        s == text@.subrange(
                            before.position() as int,
                            line_end(text@, before.position() as int),
                        ),
                        ln == before.lines_read() + 1,
                        sl.position() == line_end(text@, before.position() as int),
                        sl.lines_read() == before.lines_read() + 1,
                        tokens_from(text@, 0, 1) == prepend(
                            tokens_view(tokens@),
                            tokens_from(text@, before.position(), (before.lines_read() + 1) as u32),
                        ),
                        scanner.wf(),
                        scanner.text() == s,
                        scanner.line_number() == ln,
                        !scanner.has_failed(),
                        scan_line(s, ln) == prepend(tokens_view(line_tokens@), scanner.remaining()),
                    ensures
                        scan_line(s, ln) == Ok::<Seq<TokenModel>, ScannerError>(
                            tokens_view(line_tokens@),
                        ),
                    decreases s.len() - scanner.position() + (if scanner.is_ended() {
                        0int
                    } else {
                        1int
                    }),
                {
                    let ghost old_sc = scanner;
                    proof {
                        scanner.lemma_position();
                        lemma_step_advances(s, scanner.position() as int);
                    }
                    match scanner.next() {
                        None => {
                            assert(tokens_view(line_tokens@) + Seq::empty() =~= tokens_view(
                                line_tokens@,
                            ));
                            break;
                        },
                        Some(Ok(t)) => {
                            let ghost lt = tokens_view(line_tokens@);
                            line_tokens.push(t);
                            proof {
                                assert(tokens_view(line_tokens@) =~= lt + seq![t@]);
                                lemma_prepend_assoc(lt, seq![t@], scanner.remaining());
                                if scanner.is_ended() {
                                    assert(seq![t@] + Seq::empty() =~= seq![t@]);
                                }
                            }
                        },
                        Some(Err(e)) => {
                            proof {
                                assert(old_sc.remaining() == Err::<Seq<TokenModel>, ScannerError>(e));
                                assert(scan_line(s, ln) == Err::<Seq<TokenModel>, ScannerError>(e));
                                assert(tokens_from(text@, before.position(), ln) == Err::<
                                    Seq<TokenModel>,
                                    ScannerError,
                                >(e));
                            }
                            return Err(e);
                        },
                    }
                }
                let ghost tv = tokens_view(tokens@);
                let keep = line_tokens.len() > 0 && match line_tokens[0].kind {
                    TokenKind::NewLine => false,
                    _ => true,
                };
                if keep {
                    tokens.append(&mut line_tokens);
                }
                proof {
                    lemma_line_end(text@, before.position() as int);
                    assert(tokens_view(tokens@) =~= tv + kept(scan_line(s, ln)->Ok_0));
                    lemma_prepend_assoc(
                        tv,
                        kept(scan_line(s, ln)->Ok_0),
                        tokens_from(text@, sl.position(), (sl.lines_read() + 1) as u32),
                    );
                }
            },
        }
    }
    let ghost body = tokens_view(tokens@);
    assert(body + Seq::empty() =~= body);
    assert(tokens_from(text@, 0, 1) == Ok::<Seq<TokenModel>, ScannerError>(body));
    let last_line: u32 = if tokens.len() > 0 {
        tokens[tokens.len() - 1].line
    } else {
        0
    };
    proof {
        if tokens.len() > 0 {
            assert(body[body.len() - 1] == tokens@[tokens.len() - 1]@);
            assert(body[body.len() - 1].line < 1 + text@.len());
        }
    }
    tokens.push(Token::new(TokenKind::EOF, last_line + 1));
    assert(tokens_view(tokens@) =~= body.push(TokenModel { kind: Tok::EOF, line: (last_line + 1) as u32 }));
    Ok(tokens)
}

} // verus!
