use vstd::prelude::*;
use crate::instruction::{ExprModel, Expression, InstrModel, Instruction, instructions_view};
use crate::token::{Tok, Token, TokenKind, TokenModel, tokens_view};

verus! {

/// A parse failure: the token the parser stood on, and what was wrong.
#[derive(Debug)]
pub struct ParserError {
    pub token: Token,
    pub description: String,
}

pub struct ParseErrorModel {
    pub token: TokenModel,
    pub description: Seq<char>,
}

impl View for ParserError {
    type V = ParseErrorModel;

    open spec fn view(&self) -> ParseErrorModel {
        ParseErrorModel { token: self.token@, description: self.description@ }
    }
}

impl ParserError {
    pub fn new(token: Token, description: &str) -> (r: ParserError)
        ensures
            r.token == token,
            r.description@ == description@,
    {
        ParserError { token: token, description: String::from_str(description) }
    }
}

/// The classes of tokens that the grammar chooses among.
pub enum Class {
    /// `A`, `D` or `M`.
    Register,
    /// `-` or `!` in front of an operand.
    UnaryOperator,
    /// `+`, `-`, `&` or `|` between operands.
    BinaryOperator,
    /// `A`, `D`, `M`, `0` or `1`.
    Operand,
    /// One of the seven jump mnemonics.
    JumpMnemonic,
}

pub open spec fn in_class(class: Class, k: Tok) -> bool {
    match class {
        Class::Register => k is ARegister || k is DRegister || k is Memory,
        Class::UnaryOperator => k is Minus || k is Not,
        Class::BinaryOperator => k is Plus || k is Minus || k is And || k is Or,
        Class::Operand => k is ARegister || k is DRegister || k is Memory || k == Tok::Number(0)
            || k == Tok::Number(1),
        Class::JumpMnemonic => k is Jump || k is JumpGreaterThan || k is JumpEqual
            || k is JumpGreaterThanEqual || k is JumpLessThan || k is JumpNotEqual
            || k is JumpLessThanEqual,
    }
}

/// A parse result: a value and the index of the first token after it, or an error.
pub type Parsed<T> = Result<(T, int), ParseErrorModel>;

pub open spec fn error_at(ts: Seq<TokenModel>, i: int, description: Seq<char>) -> ParseErrorModel {
    ParseErrorModel { token: ts[i], description }
}

/// Whether a register of the same kind as `t` is already among `acc`.
pub open spec fn has_register(acc: Seq<TokenModel>, t: TokenModel) -> bool {
    exists|j: int| 0 <= j < acc.len() && (#[trigger] acc[j]).kind == t.kind
}

/// The registers from `i` on, added to `acc`; a register already present is an error.
pub open spec fn parse_registers(ts: Seq<TokenModel>, i: int, acc: Seq<TokenModel>) -> Parsed<
    Seq<TokenModel>,
>
    decreases ts.len() - i,
{
    if 0 <= i < ts.len() && in_class(Class::Register, ts[i].kind) {
        if has_register(acc, ts[i]) {
            Err(error_at(ts, i + 1, "Duplicate destination"@))
        } else {
            parse_registers(ts, i + 1, acc.push(ts[i]))
        }
    } else {
        Ok((acc, i))
    }
}

/// `dest := (A|D|M)+ '='`; without the `=` the registers are left for the computation
/// and the destination is empty.
pub open spec fn parse_dest(ts: Seq<TokenModel>, i: int) -> Parsed<Seq<TokenModel>> {
    match parse_registers(ts, i, Seq::empty()) {
        Err(e) => Err(e),
        Ok((d, j)) => if ts[j].kind == Tok::Equal {
            if d.len() == 0 {
                Err(error_at(ts, j + 1, "Missing destination l-value"@))
            } else {
                Ok((d, j + 1))
            }
        } else {
            Ok((Seq::empty(), i))
        },
    }
}

/// `primary := A | D | M | 0 | 1`
pub open spec fn parse_literal(ts: Seq<TokenModel>, i: int) -> Parsed<TokenModel> {
    if in_class(Class::Operand, ts[i].kind) {
        Ok((ts[i], i + 1))
    } else {
        Err(error_at(ts, i, "Unexpected expression"@))
    }
}

/// `comp := ('-'|'!') primary | primary (binop primary)?`
pub open spec fn parse_comp(ts: Seq<TokenModel>, i: int) -> Parsed<ExprModel> {
    if in_class(Class::UnaryOperator, ts[i].kind) {
        match parse_literal(ts, i + 1) {
            Err(e) => Err(e),
            Ok((right, j)) => Ok((ExprModel::Unary { operator: ts[i], right }, j)),
        }
    } else {
        match parse_literal(ts, i) {
            Err(e) => Err(e),
            Ok((left, j)) => if in_class(Class::BinaryOperator, ts[j].kind) {
                match parse_literal(ts, j + 1) {
                    Err(e) => Err(e),
                    Ok((right, k)) => Ok((ExprModel::Binary { left, operator: ts[j], right }, k)),
                }
            } else {
                Ok((ExprModel::Literal(left), j))
            },
        }
    }
}

/// `jump := ';' jump-mnemonic`, optional.
pub open spec fn parse_jump(ts: Seq<TokenModel>, i: int) -> Parsed<Option<TokenModel>> {
    if ts[i].kind == Tok::Semicolon {
        if in_class(Class::JumpMnemonic, ts[i + 1].kind) {
            Ok((Some(ts[i + 1]), i + 2))
        } else {
            Err(error_at(ts, i + 1, "Invalid jump code"@))
        }
    } else {
        Ok((None, i))
    }
}

/// `c_instruction := dest? comp jump?`
pub open spec fn parse_c_instruction(ts: Seq<TokenModel>, i: int) -> Parsed<InstrModel> {
    match parse_dest(ts, i) {
        Err(e) => Err(e),
        Ok((dest, j)) => match parse_comp(ts, j) {
            Err(e) => Err(e),
            Ok((comp, k)) => match parse_jump(ts, k) {
                Err(e) => Err(e),
                Ok((jump, l)) => Ok((InstrModel::CInstruction { dest, comp, jump }, l)),
            },
        },
    }
}

/// One statement, then its line-terminator, which only the end of input may replace.
pub open spec fn parse_statement(ts: Seq<TokenModel>, i: int) -> Parsed<InstrModel> {
    let body = match ts[i].kind {
        Tok::Label(_) => Ok((InstrModel::Label(ts[i]), i + 1)),
        Tok::Address(_) => Ok((InstrModel::AInstruction(ts[i]), i + 1)),
        Tok::Symbol(_) => Ok((InstrModel::AInstruction(ts[i]), i + 1)),
        _ => parse_c_instruction(ts, i),
    };
    match body {
        Err(e) => Err(e),
        Ok((ins, j)) => if ts[j].kind == Tok::NewLine {
            Ok((ins, j + 1))
        } else if ts[j].kind == Tok::EOF {
            Ok((ins, j))
        } else {
            Err(error_at(ts, j, "A statement must end with a new line."@))
        },
    }
}

/// A token stream that the parser can walk: it ends in end-of-input.
pub open spec fn well_formed(ts: Seq<TokenModel>) -> bool {
    ts.len() > 0 && ts.last().kind == Tok::EOF
}

/// Where a parse from a non-EOF token stops: past `i`, and not past the end-of-input token.
pub open spec fn advances<T>(ts: Seq<TokenModel>, i: int, r: Parsed<T>) -> bool {
    r matches Ok((_, j)) ==> i < j < ts.len()
}

proof fn lemma_registers(ts: Seq<TokenModel>, i: int, acc: Seq<TokenModel>)
    requires
        well_formed(ts),
        0 <= i < ts.len(),
    ensures
        parse_registers(ts, i, acc) matches Ok((d, j)) ==> i <= j < ts.len() && d.len() == acc.len()
            + (j - i),
        parse_registers(ts, i, acc) matches Err(e) ==> exists|k: int|
            i < k < ts.len() && e == error_at(ts, k, "Duplicate destination"@),
    decreases ts.len() - i,
{
    if in_class(Class::Register, ts[i].kind) && !has_register(acc, ts[i]) {
        lemma_registers(ts, i + 1, acc.push(ts[i]));
    }
}

pub proof fn lemma_statement_advances(ts: Seq<TokenModel>, i: int)
    requires
        well_formed(ts),
        0 <= i < ts.len(),
        ts[i].kind != Tok::EOF,
    ensures
        advances(ts, i, parse_statement(ts, i)),
{
    lemma_registers(ts, i, Seq::empty());
}

/// The instructions of the statements from token `i` up to end-of-input, or the first error.
pub open spec fn parse_from(ts: Seq<TokenModel>, i: int) -> Result<Seq<InstrModel>, ParseErrorModel>
    decreases ts.len() - i,
{
    if i < 0 || i >= ts.len() || ts[i].kind == Tok::EOF {
        Ok(Seq::empty())
    } else {
        match parse_statement(ts, i) {
            Err(e) => Err(e),
            // Every statement takes at least one token (`lemma_statement_advances`).
            Ok((ins, j)) => if i < j <= ts.len() {
                match parse_from(ts, j) {
                    Err(e) => Err(e),
                    Ok(rest) => Ok(seq![ins] + rest),
                }
            } else {
                Ok(seq![ins])
            },
        }
    }
}

/// The program that a token stream spells, or the first parse error.
pub open spec fn parsed(ts: Seq<TokenModel>) -> Result<Seq<InstrModel>, ParseErrorModel> {
    parse_from(ts, 0)
}

/// A recursive-descent parser over a token stream, with one token of lookahead.
pub struct Parser {
    tokens: Vec<Token>,
    cursor: usize,
}

impl Parser {
    pub closed spec fn tokens(&self) -> Seq<TokenModel> {
        tokens_view(self.tokens@)
    }

    pub closed spec fn position(&self) -> int {
        self.cursor as int
    }

    pub closed spec fn wf(&self) -> bool {
        &&& well_formed(self.tokens())
        &&& self.cursor < self.tokens@.len()
    }

    /// A parser at the start of `tokens`, which must end in end-of-input.
    pub fn new(tokens: Vec<Token>) -> (r: Parser)
        requires
            well_formed(tokens_view(tokens@)),
        ensures
            r.wf(),
            r.tokens() == tokens_view(tokens@),
            r.position() == 0,
    {
        Parser { tokens: tokens, cursor: 0 }
    }

    /// Parses the statements from the cursor up to end-of-input.
    pub fn parse(&mut self) -> (r: Result<Vec<Instruction>, ParserError>)
        requires
            old(self).wf(),
        ensures
            match parse_from(old(self).tokens(), old(self).position()) {
                Ok(p) => r matches Ok(v) && instructions_view(v@) == p,
                Err(e) => r matches Err(err) && err@ == e,
            },
    {
        let ghost ts = self.tokens();
        let ghost start = self.position();
        let mut codes: Vec<Instruction> = Vec::new();
        assert(instructions_view(codes@) =~= Seq::empty());
        while !self.at_end()
            invariant
                self.wf(),
                self.tokens() == ts,
                ts == old(self).tokens(),
                start == old(self).position(),
                0 <= start <= self.position(),
                ({
                    let whole = parse_from(ts, start);
                    let rest = parse_from(ts, self.position());
                    &&& rest is Ok ==> whole == Ok::<Seq<InstrModel>, ParseErrorModel>(
                        instructions_view(codes@) + rest->Ok_0,
                    )
                    &&& rest is Err ==> whole == rest
                }),
            decreases ts.len() - self.position(),
        {
            let ghost i = self.position();
            proof {
                lemma_statement_advances(ts, i);
            }
            match self.statement() {
                Ok(c) => {
                    let ghost before = instructions_view(codes@);
                    codes.push(c);
                    proof {
                        assert(instructions_view(codes@) =~= before.push(c@));
                        if let Ok(rest) = parse_from(ts, self.position()) {
                            assert(before + (seq![c@] + rest) =~= before.push(c@) + rest);
                        }
                    }
                },
                Err(e) => {
                    return Err(e);
                },
            }
        }
        assert(instructions_view(codes@) + Seq::empty() =~= instructions_view(codes@));
        Ok(codes)
    }

    fn statement(&mut self) -> (r: Result<Instruction, ParserError>)
        requires
            old(self).wf(),
            old(self).tokens()[old(self).position()].kind != Tok::EOF,
        ensures
            final(self).tokens() == old(self).tokens(),
            match parse_statement(old(self).tokens(), old(self).position()) {
                Ok((ins, j)) => r matches Ok(v) && v@ == ins && final(self).wf()
                    && final(self).position() == j,
                Err(e) => r matches Err(err) && err@ == e,
            },
    {
        proof {
            lemma_statement_advances(self.tokens(), self.position());
            lemma_registers(self.tokens(), self.position(), Seq::empty());
        }
        let statement = match self.tokens[self.cursor].kind {
            TokenKind::Label(_) => self.symbol(),
            TokenKind::Address(_) => self.a_instruction(),
            TokenKind::Symbol(_) => self.a_instruction(),
            _ => match self.c_instruction() {
                Ok(c) => c,
                Err(e) => {
                    return Err(e);
                },
            },
        };
        if !self.at_end() {
            if let Err(e) = self.try_push(TokenKind::NewLine, "A statement must end with a new line.") {
                return Err(e);
            }
        }
        Ok(statement)
    }

    fn symbol(&mut self) -> (r: Instruction)
        requires
            old(self).wf(),
            old(self).tokens()[old(self).position()].kind != Tok::EOF,
        ensures
            final(self).wf(),
            final(self).tokens() == old(self).tokens(),
            final(self).position() == old(self).position() + 1,
            r@ == InstrModel::Label(old(self).tokens()[old(self).position()]),
    {
        Instruction::Label(self.push())
    }

    fn a_instruction(&mut self) -> (r: Instruction)
        requires
            old(self).wf(),
            old(self).tokens()[old(self).position()].kind != Tok::EOF,
        ensures
            final(self).wf(),
            final(self).tokens() == old(self).tokens(),
            final(self).position() == old(self).position() + 1,
            r@ == InstrModel::AInstruction(old(self).tokens()[old(self).position()]),
    {
        Instruction::AInstruction(self.push())
    }

    fn c_instruction(&mut self) -> (r: Result<Instruction, ParserError>)
        requires
            old(self).wf(),
        ensures
            final(self).tokens() == old(self).tokens(),
            match parse_c_instruction(old(self).tokens(), old(self).position()) {
                Ok((ins, j)) => r matches Ok(v) && v@ == ins && final(self).wf()
                    && final(self).position() == j,
                Err(e) => r matches Err(err) && err@ == e,
            },
    {
        let dest = match self.dest() {
            Ok(d) => d,
            Err(e) => {
                return Err(e);
            },
        };
        let comp = match self.comp() {
            Ok(c) => c,
            Err(e) => {
                return Err(e);
            },
        };
        let jump = match self.jump() {
            Ok(j) => j,
            Err(e) => {
                return Err(e);
            },
        };
        Ok(Instruction::CInstruction { dest: dest, comp: comp, jump: jump })
    }

    fn dest(&mut self) -> (r: Result<Vec<Token>, ParserError>)
        requires
            old(self).wf(),
        ensures
            final(self).tokens() == old(self).tokens(),
            match parse_dest(old(self).tokens(), old(self).position()) {
                Ok((d, j)) => r matches Ok(v) && tokens_view(v@) == d && final(self).wf()
                    && final(self).position() == j,
                Err(e) => r matches Err(err) && err@ == e,
            },
    {
        let ghost ts = self.tokens();
        let ghost start = self.position();
        proof {
            lemma_registers(ts, start, Seq::empty());
        }
        let mut dest: Vec<Token> = Vec::with_capacity(3);
        assert(tokens_view(dest@) =~= Seq::empty());
        loop
            invariant
                self.wf(),
                self.tokens() == ts,
                ts == old(self).tokens(),
                start == old(self).position(),
                start <= self.position(),
                tokens_view(dest@).len() == self.position() - start,
                parse_registers(ts, start, Seq::empty()) == parse_registers(
                    ts,
                    self.position(),
                    tokens_view(dest@),
                ),
            ensures
                !in_class(Class::Register, ts[self.position()].kind),
            decreases ts.len() - self.position(),
        {
            if !self.match_any(Class::Register) {
                break;
            }
            let token = self.previous();
            let ghost i = self.position() - 1;
            proof {
                lemma_registers(ts, i, tokens_view(dest@));
            }
            if self.contains_kind(&dest, &token.kind) {
                return Err(self.error("Duplicate destination"));
            }
            let ghost before = tokens_view(dest@);
            dest.push(token);
            assert(tokens_view(dest@) =~= before.push(ts[i]));
        }
        proof {
            lemma_registers(ts, self.position(), tokens_view(dest@));
        }
        if self.match_one(TokenKind::Equal) {
            if dest.len() == 0 {
                return Err(self.error("Missing destination l-value"));
            }
            Ok(dest)
        } else {
            assert(dest@.len() == tokens_view(dest@).len());
            let mut k: usize = 0;
            while k < dest.len()
                invariant
                    self.wf(),
                    self.tokens() == ts,
                    k <= dest@.len(),
                    0 <= start,
                    self.position() == start + dest@.len() - k,
                decreases dest@.len() - k,
            {
                self.pop();
                k += 1;
            }
            let none: Vec<Token> = Vec::new();
            assert(tokens_view(none@) =~= Seq::empty());
            Ok(none)
        }
    }

    /// Whether a token of kind `kind` is among `dest`.
    fn contains_kind(&self, dest: &Vec<Token>, kind: &TokenKind) -> (r: bool)
        ensures
            r == has_register(tokens_view(dest@), TokenModel { kind: kind@, line: 0 }),
    {
        let ghost d = tokens_view(dest@);
        let mut j: usize = 0;
        while j < dest.len()
            invariant
                j <= dest@.len(),
                d == tokens_view(dest@),
                forall|m: int| 0 <= m < j ==> d[m].kind != kind@,
            decreases dest@.len() - j,
        {
            if dest[j].kind.same_as(kind) {
                assert(d[j as int].kind == kind@);
                return true;
            }
            j += 1;
        }
        false
    }

    fn comp(&mut self) -> (r: Result<Expression, ParserError>)
        requires
            old(self).wf(),
        ensures
            final(self).tokens() == old(self).tokens(),
            match parse_comp(old(self).tokens(), old(self).position()) {
                Ok((c, j)) => r matches Ok(v) && v@ == c && final(self).wf() && final(self).position()
                    == j,
                Err(e) => r matches Err(err) && err@ == e,
            },
    {
        if self.match_any(Class::UnaryOperator) {
            let operator = self.previous();
            let right = match self.literal() {
                Ok(t) => t,
                Err(e) => {
                    return Err(e);
                },
            };
            return Ok(Expression::Unary { operator: operator, right: right });
        }
        let left = match self.literal() {
            Ok(t) => t,
            Err(e) => {
                return Err(e);
            },
        };
        if self.match_any(Class::BinaryOperator) {
            let operator = self.previous();
            let right = match self.literal() {
                Ok(t) => t,
                Err(e) => {
                    return Err(e);
                },
            };
            return Ok(Expression::Binary { left: left, operator: operator, right: right });
        }
        Ok(Expression::Literal(left))
    }

    fn literal(&mut self) -> (r: Result<Token, ParserError>)
        requires
            old(self).wf(),
        ensures
            final(self).tokens() == old(self).tokens(),
            match parse_literal(old(self).tokens(), old(self).position()) {
                Ok((t, j)) => r matches Ok(v) && v@ == t && final(self).wf() && final(self).position()
                    == j,
                Err(e) => r matches Err(err) && err@ == e,
            },
    {
        if self.match_any(Class::Operand) {
            return Ok(self.previous());
        }
        Err(self.error("Unexpected expression"))
    }

    fn jump(&mut self) -> (r: Result<Option<Token>, ParserError>)
        requires
            old(self).wf(),
        ensures
            final(self).tokens() == old(self).tokens(),
            match parse_jump(old(self).tokens(), old(self).position()) {
                Ok((t, j)) => r matches Ok(v) && crate::instruction::option_token_view(v) == t
                    && final(self).wf() && final(self).position() == j,
                Err(e) => r matches Err(err) && err@ == e,
            },
    {
        let mut jump: Option<Token> = None;
        if self.match_one(TokenKind::Semicolon) {
            if self.match_any(Class::JumpMnemonic) {
                jump = Some(self.previous());
            } else {
                return Err(self.error("Invalid jump code"));
            }
        }
        Ok(jump)
    }

    fn error(&self, description: &str) -> (r: ParserError)
        requires
            self.wf(),
        ensures
            r@ == error_at(self.tokens(), self.position(), description@),
    {
        ParserError::new(self.peek(), description)
    }

    /// Advances past the current token if it has kind `t`.
    fn match_one(&mut self, t: TokenKind) -> (r: bool)
        requires
            old(self).wf(),
        ensures
            final(self).wf(),
            final(self).tokens() == old(self).tokens(),
            r == (old(self).tokens()[old(self).position()].kind != Tok::EOF && old(
                self,
            ).tokens()[old(self).position()].kind == t@),
            final(self).position() == old(self).position() + if r {
                1int
            } else {
                0int
            },
    {
        if self.check(&t) {
            self.push();
            return true;
        }
        false
    }

    /// Advances past the current token if it is of the class.
    fn match_any(&mut self, class: Class) -> (r: bool)
        requires
            old(self).wf(),
        ensures
            final(self).wf(),
            final(self).tokens() == old(self).tokens(),
            r == in_class(class, old(self).tokens()[old(self).position()].kind),
            final(self).position() == old(self).position() + if r {
                1int
            } else {
                0int
            },
    {
        let found = match (&class, &self.tokens[self.cursor].kind) {
            (Class::Register, TokenKind::ARegister) => true,
            (Class::Register, TokenKind::DRegister) => true,
            (Class::Register, TokenKind::Memory) => true,
            (Class::UnaryOperator, TokenKind::Minus) => true,
            (Class::UnaryOperator, TokenKind::Not) => true,
            (Class::BinaryOperator, TokenKind::Plus) => true,
            (Class::BinaryOperator, TokenKind::Minus) => true,
            (Class::BinaryOperator, TokenKind::And) => true,
            (Class::BinaryOperator, TokenKind::Or) => true,
            (Class::Operand, TokenKind::ARegister) => true,
            (Class::Operand, TokenKind::DRegister) => true,
            (Class::Operand, TokenKind::Memory) => true,
            (Class::Operand, TokenKind::Number(n)) => *n == 0 || *n == 1,
            (Class::JumpMnemonic, TokenKind::Jump) => true,
            (Class::JumpMnemonic, TokenKind::JumpGreaterThan) => true,
            (Class::JumpMnemonic, TokenKind::JumpEqual) => true,
            (Class::JumpMnemonic, TokenKind::JumpGreaterThanEqual) => true,
            (Class::JumpMnemonic, TokenKind::JumpLessThan) => true,
            (Class::JumpMnemonic, TokenKind::JumpNotEqual) => true,
            (Class::JumpMnemonic, TokenKind::JumpLessThanEqual) => true,
            _ => false,
        };
        if found {
            self.push();
        }
        found
    }

    /// Advances past the current token if it has kind `t`, and fails with `description`
    /// otherwise.
    fn try_push(&mut self, t: TokenKind, description: &str) -> (r: Result<Token, ParserError>)
        requires
            old(self).wf(),
        ensures
            final(self).wf(),
            final(self).tokens() == old(self).tokens(),
            ({
                let cur = old(self).tokens()[old(self).position()];
                if cur.kind != Tok::EOF && cur.kind == t@ {
                    r matches Ok(tok) && tok@ == cur && final(self).position() == old(self).position()
                        + 1
                } else {
                    r matches Err(e) && e@ == error_at(
                        old(self).tokens(),
                        old(self).position(),
                        description@,
                    )
                }
            }),
    {
        if !self.check(&t) {
            return Err(self.error(description));
        }
        Ok(self.push())
    }

    /// Moves the cursor back by one token.
    fn pop(&mut self)
        requires
            0 < old(self).cursor,
            old(self).wf(),
        ensures
            final(self).wf(),
            final(self).tokens() == old(self).tokens(),
            final(self).position() == old(self).position() - 1,
    {
        self.cursor -= 1;
    }

    /// Advances the cursor past the current token unless it is end-of-input, and returns
    /// the token now behind the cursor.
    fn push(&mut self) -> (r: Token)
        requires
            old(self).wf(),
            old(self).tokens()[old(self).position()].kind != Tok::EOF,
        ensures
            final(self).wf(),
            final(self).tokens() == old(self).tokens(),
            final(self).position() == old(self).position() + 1,
            r@ == old(self).tokens()[old(self).position()],
    {
        let n = self.tokens.len();
        if !self.at_end() {
            proof {
                assert(self.tokens()[n - 1] == self.tokens@[n - 1]@);
            }
            self.cursor += 1;
        }
        self.previous()
    }

    /// Whether the current token, short of end-of-input, has kind `t`.
    fn check(&self, t: &TokenKind) -> (r: bool)
        requires
            self.wf(),
        ensures
            r == (self.tokens()[self.position()].kind != Tok::EOF && self.tokens()[self.position()].kind
                == t@),
    {
        if self.at_end() {
            return false;
        }
        self.tokens[self.cursor].kind.same_as(t)
    }

    fn peek(&self) -> (r: Token)
        requires
            self.wf(),
        ensures
            r@ == self.tokens()[self.position()],
    {
        self.tokens[self.cursor].duplicate()
    }

    fn previous(&self) -> (r: Token)
        requires
            0 < self.cursor <= self.tokens@.len(),
        ensures
            r@ == self.tokens()[self.position() - 1],
    {
        self.tokens[self.cursor - 1].duplicate()
    }

    fn at_end(&self) -> (r: bool)
        requires
            self.wf(),
        ensures
            r == (self.tokens()[self.position()].kind == Tok::EOF),
    {
        match self.tokens[self.cursor].kind {
            TokenKind::EOF => true,
            _ => false,
        }
    }
}

} // verus!
