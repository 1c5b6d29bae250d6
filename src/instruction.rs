use vstd::prelude::*;
use crate::symbol_table::{lookup, resolved, SymbolTable, TableModel};
use crate::token::{Tok, Token, TokenKind, TokenModel, tokens_view};

verus! {

/// The computation part of a compute instruction, before it is encoded.
#[derive(Debug)]
pub enum Expression {
    Binary { left: Token, operator: Token, right: Token },
    Unary { operator: Token, right: Token },
    Literal(Token),
}

pub enum ExprModel {
    Binary { left: TokenModel, operator: TokenModel, right: TokenModel },
    Unary { operator: TokenModel, right: TokenModel },
    Literal(TokenModel),
}

impl View for Expression {
    type V = ExprModel;

    open spec fn view(&self) -> ExprModel {
        match self {
            Expression::Binary { left, operator, right } => ExprModel::Binary {
                left: left@,
                operator: operator@,
                right: right@,
            },
            Expression::Unary { operator, right } => ExprModel::Unary {
                operator: operator@,
                right: right@,
            },
            Expression::Literal(t) => ExprModel::Literal(t@),
        }
    }
}

/// One statement of a program.
#[derive(Debug)]
pub enum Instruction {
    /// `(NAME)`: binds a name to the address of the next instruction; emits nothing.
    Label(Token),
    /// `@operand`: loads an address.
    AInstruction(Token),
    /// `dest=comp;jump`.
    CInstruction { dest: Vec<Token>, comp: Expression, jump: Option<Token> },
}

pub enum InstrModel {
    Label(TokenModel),
    AInstruction(TokenModel),
    CInstruction { dest: Seq<TokenModel>, comp: ExprModel, jump: Option<TokenModel> },
}

pub open spec fn option_token_view(t: Option<Token>) -> Option<TokenModel> {
    match t {
        Some(t) => Some(t@),
        None => None,
    }
}

impl View for Instruction {
    type V = InstrModel;

    open spec fn view(&self) -> InstrModel {
        match self {
            Instruction::Label(t) => InstrModel::Label(t@),
            Instruction::AInstruction(t) => InstrModel::AInstruction(t@),
            Instruction::CInstruction { dest, comp, jump } => InstrModel::CInstruction {
                dest: tokens_view(dest@),
                comp: comp@,
                jump: option_token_view(*jump),
            },
        }
    }
}

/// The models of a sequence of instructions, element by element.
pub open spec fn instructions_view(v: Seq<Instruction>) -> Seq<InstrModel> {
    v.map_values(|i: Instruction| i@)
}

/// Why an instruction could not be encoded.
#[derive(Debug, Clone, Copy, PartialEq, Eq, Structural)]
pub enum EncodeErrorKind {
    /// An address, literal or assigned, does not fit in 16 bits.
    AddressOutOfRange,
    /// The operand of an address instruction is neither a number nor a name.
    InvalidOperand,
    /// The computation is not in the instruction set.
    InvalidComputation,
    InvalidDestination,
    InvalidJump,
}

impl EncodeErrorKind {
    pub fn description(&self) -> &'static str {
        match self {
            EncodeErrorKind::AddressOutOfRange => "Address value greater than 16-bit address width",
            EncodeErrorKind::InvalidOperand => "Token cannot be encoded as a instruction",
            EncodeErrorKind::InvalidComputation => "Invalid computation expression",
            EncodeErrorKind::InvalidDestination => "Invalid destination",
            EncodeErrorKind::InvalidJump => "Invalid jump command",
        }
    }
}

/// An encoding failure and the source line of the instruction.
#[derive(Debug, Clone, Copy, PartialEq, Eq, Structural)]
pub struct InstructionError {
    pub kind: EncodeErrorKind,
    pub line: u32,
}

impl InstructionError {
    fn new(kind: EncodeErrorKind, line: u32) -> (r: InstructionError)
        ensures
            r == (InstructionError { kind, line }),
    {
        InstructionError { kind: kind, line: line }
    }
}

pub open spec fn is_d(k: Tok) -> bool {
    k is DRegister
}

/// `A` or `M`, which share their computation bits.
pub open spec fn is_am(k: Tok) -> bool {
    k is ARegister || k is Memory
}

pub open spec fn is_one(k: Tok) -> bool {
    k == Tok::Number(1)
}

/// The bits `c1..c6`, in place (bits 11 to 6), of a computation in the instruction set.
pub open spec fn comp_bits_of(e: ExprModel) -> Option<u16> {
    match e {
        ExprModel::Binary { left, operator, right } => {
            let (l, r) = (left.kind, right.kind);
            match operator.kind {
                Tok::Plus => if is_d(l) && is_one(r) {
                    Some(0x7C0u16)
                } else if is_am(l) && is_one(r) {
                    Some(0xDC0u16)
                } else if is_d(l) && is_am(r) {
                    Some(0x80u16)
                } else {
                    None
                },
                Tok::Minus => if is_d(l) && is_one(r) {
                    Some(0x380u16)
                } else if is_am(l) && is_one(r) {
                    Some(0xC80u16)
                } else if is_d(l) && is_am(r) {
                    Some(0x4C0u16)
                } else if is_am(l) && is_d(r) {
                    Some(0x1C0u16)
                } else {
                    None
                },
                Tok::And => if is_d(l) && is_am(r) {
                    Some(0x0u16)
                } else {
                    None
                },
                Tok::Or => if is_d(l) && is_am(r) {
                    Some(0x540u16)
                } else {
                    None
                },
                _ => None,
            }
        },
        ExprModel::Unary { operator, right } => {
            let r = right.kind;
            match operator.kind {
                Tok::Minus => if is_one(r) {
                    Some(0xE80u16)
                } else if is_d(r) {
                    Some(0x3C0u16)
                } else if is_am(r) {
                    Some(0xCC0u16)
                } else {
                    None
                },
                Tok::Not => if is_d(r) {
                    Some(0x340u16)
                } else if is_am(r) {
                    Some(0xC40u16)
                } else {
                    None
                },
                _ => None,
            }
        },
        ExprModel::Literal(t) => {
            if t.kind == Tok::Number(0) {
                Some(0xA80u16)
            } else if is_one(t.kind) {
                Some(0xFC0u16)
            } else if is_d(t.kind) {
                Some(0x300u16)
            } else if is_am(t.kind) {
                Some(0xC00u16)
            } else {
                None
            }
        },
    }
}

/// Whether the computation reads `M`.
pub open spec fn uses_memory(e: ExprModel) -> bool {
    match e {
        ExprModel::Binary { left, operator, right } => left.kind is Memory || right.kind is Memory,
        ExprModel::Unary { operator, right } => right.kind is Memory,
        ExprModel::Literal(t) => t.kind is Memory,
    }
}

/// The bit `a` (bit 12).
pub open spec fn memory_bit(e: ExprModel) -> u16 {
    if uses_memory(e) {
        0x1000
    } else {
        0
    }
}

/// The line of the first token of a computation.
pub open spec fn expression_line(e: ExprModel) -> u32 {
    match e {
        ExprModel::Binary { left, operator, right } => left.line,
        ExprModel::Unary { operator, right } => operator.line,
        ExprModel::Literal(t) => t.line,
    }
}

/// The bits `d1 d2 d3` (bits 5 to 3) of the destinations from `i` on, added to `acc`;
/// a token that is no register fails with its line.
pub open spec fn dest_bits_from(d: Seq<TokenModel>, i: int, acc: u16) -> Result<u16, u32>
    decreases d.len() - i,
{
    if i < 0 || i >= d.len() {
        Ok(acc)
    } else {
        match d[i].kind {
            Tok::ARegister => dest_bits_from(d, i + 1, acc | 0x20),
            Tok::DRegister => dest_bits_from(d, i + 1, acc | 0x10),
            Tok::Memory => dest_bits_from(d, i + 1, acc | 0x8),
            _ => Err(d[i].line),
        }
    }
}

/// The bits `j1 j2 j3` (bits 2 to 0).
pub open spec fn jump_bits_of(j: Option<TokenModel>) -> Option<u16> {
    match j {
        None => Some(0u16),
        Some(t) => match t.kind {
            Tok::Jump => Some(0x7u16),
            Tok::JumpGreaterThan => Some(0x1u16),
            Tok::JumpEqual => Some(0x2u16),
            Tok::JumpGreaterThanEqual => Some(0x3u16),
            Tok::JumpLessThan => Some(0x4u16),
            Tok::JumpNotEqual => Some(0x5u16),
            Tok::JumpLessThanEqual => Some(0x6u16),
            _ => None,
        },
    }
}

/// The word `111a cccc ccdd djjj` of a compute instruction; the computation is checked
/// first, then the destinations, then the jump.
pub open spec fn c_word(dest: Seq<TokenModel>, comp: ExprModel, jump: Option<TokenModel>) -> Result<
    u16,
    InstructionError,
> {
    match comp_bits_of(comp) {
        None => Err(
            InstructionError { kind: EncodeErrorKind::InvalidComputation, line: expression_line(comp) },
        ),
        Some(c) => match dest_bits_from(dest, 0, 0) {
            Err(line) => Err(InstructionError { kind: EncodeErrorKind::InvalidDestination, line }),
            Ok(d) => match jump_bits_of(jump) {
                None => Err(
                    InstructionError { kind: EncodeErrorKind::InvalidJump, line: jump->Some_0.line },
                ),
                Some(j) => Ok(0xE000u16 | memory_bit(comp) | c | d | j),
            },
        },
    }
}

/// The word of an address instruction and the table after it: a literal is taken as it
/// is, a name is resolved through the table.
pub open spec fn a_word(t: TableModel, operand: TokenModel) -> Result<(u16, TableModel), InstructionError> {
    match operand.kind {
        Tok::Address(n) => if n > u16::MAX {
            Err(InstructionError { kind: EncodeErrorKind::AddressOutOfRange, line: operand.line })
        } else {
            Ok((n as u16, t))
        },
        Tok::Symbol(name) => if lookup(t, name) is None && t.next_variable > u16::MAX {
            Err(InstructionError { kind: EncodeErrorKind::AddressOutOfRange, line: operand.line })
        } else {
            let (t2, a) = resolved(t, name);
            Ok((a, t2))
        },
        _ => Err(InstructionError { kind: EncodeErrorKind::InvalidOperand, line: operand.line }),
    }
}

/// An address instruction with a literal operand encodes if and only if the literal fits
/// in 16 bits, and then to the literal itself; a larger literal is an address-range error.
pub proof fn literal_address_range(t: TableModel, n: u32, line: u32)
    ensures
        ({
            let r = encoded_instruction(
                t,
                InstrModel::AInstruction(TokenModel { kind: Tok::Address(n), line }),
            );
            &&& r is Ok <==> n <= u16::MAX
            &&& n <= u16::MAX ==> r == Ok::<(Option<u16>, TableModel), InstructionError>(
                (Some(n as u16), t),
            )
            &&& n > u16::MAX ==> r == Err::<(Option<u16>, TableModel), InstructionError>(
                InstructionError { kind: EncodeErrorKind::AddressOutOfRange, line },
            )
        }),
{
}

/// The word of an instruction, `None` for a label, and the table after it.
pub open spec fn encoded_instruction(t: TableModel, ins: InstrModel) -> Result<
    (Option<u16>, TableModel),
    InstructionError,
> {
    match ins {
        InstrModel::Label(_) => Ok((None, t)),
        InstrModel::AInstruction(operand) => match a_word(t, operand) {
            Err(e) => Err(e),
            Ok((w, t2)) => Ok((Some(w), t2)),
        },
        InstrModel::CInstruction { dest, comp, jump } => match c_word(dest, comp, jump) {
            Err(e) => Err(e),
            Ok(w) => Ok((Some(w), t)),
        },
    }
}

/// The name a label declaration binds, with its line.
pub open spec fn label_of(ins: InstrModel) -> Option<(Seq<char>, u32)> {
    match ins {
        InstrModel::Label(t) => match t.kind {
            Tok::Label(name) => Some((name, t.line)),
            _ => None,
        },
        _ => None,
    }
}

/// The binary digit for bit `k` of `w`.
pub open spec fn bit_char(w: u16, k: int) -> char {
    if (w >> (k as u16)) & 1u16 == 1u16 {
        '1'
    } else {
        '0'
    }
}

/// The 16 binary digits of `w`, most significant first.
pub open spec fn bits16(w: u16) -> Seq<char> {
    Seq::new(16, |i: int| bit_char(w, 15 - i))
}

/// The 16 binary digits of `w`, most significant first.
pub fn binary_digits(w: u16) -> (r: String)
    ensures
        r@ == bits16(w),
{
    proof {
        reveal_strlit("0");
        reveal_strlit("1");
    }
    let mut s = String::new();
    let mut i: u16 = 0;
    while i < 16
        invariant
            i <= 16,
            s@ == bits16(w).take(i as int),
        decreases 16 - i,
    {
        proof {
            reveal_strlit("0");
            reveal_strlit("1");
        }
        if (w >> (15 - i)) & 1 == 1 {
            s.append("1");
        } else {
            s.append("0");
        }
        assert(s@ =~= bits16(w).take(i + 1));
        i += 1;
    }
    assert(s@ =~= bits16(w));
    s
}

impl Instruction {
    /// The name a label declaration binds; `None` for other instructions.
    pub fn symbol_string(&self) -> (r: Option<&str>)
        ensures
            match label_of(self@) {
                Some((name, _)) => r matches Some(s) && s@ == name,
                None => r is None,
            },
    {
        match self {
            Instruction::Label(t) => match &t.kind {
                TokenKind::Label(name) => Some(name.as_str()),
                _ => None,
            },
            _ => None,
        }
    }

    /// The 16 binary digits of the instruction's word; `None` for a label.
    pub fn binary_string(&self, symbols: &mut SymbolTable) -> (r: Result<
        Option<String>,
        InstructionError,
    >)
        requires
            old(symbols).wf(),
        ensures
            final(symbols).wf(),
            match encoded_instruction(old(symbols)@, self@) {
                Ok((w, t)) => final(symbols)@ == t && match w {
                    Some(w) => r matches Ok(Some(s)) && s@ == bits16(w),
                    None => r matches Ok(None),
                },
                Err(e) => r == Err::<Option<String>, InstructionError>(e),
            },
    {
        match self.binary(symbols) {
            Ok(Some(b)) => Ok(Some(binary_digits(b))),
            Ok(None) => Ok(None),
            Err(e) => Err(e),
        }
    }

    /// The instruction's 16-bit word; `None` for a label. Names are resolved through
    /// `symbols`, which records each new variable.
    pub fn binary(&self, symbols: &mut SymbolTable) -> (r: Result<Option<u16>, InstructionError>)
        requires
            old(symbols).wf(),
        ensures
            final(symbols).wf(),
            match encoded_instruction(old(symbols)@, self@) {
                Ok((w, t)) => r == Ok::<Option<u16>, InstructionError>(w) && final(symbols)@ == t,
                Err(e) => r == Err::<Option<u16>, InstructionError>(e),
            },
    {
        match self {
            Instruction::Label(_) => Ok(None),
            Instruction::AInstruction(t) => match self.a_binary(t, symbols) {
                Ok(w) => Ok(Some(w)),
                Err(e) => Err(e),
            },
            Instruction::CInstruction { dest, comp, jump } => match self.c_binary(dest, comp, jump) {
                Ok(w) => Ok(Some(w)),
                Err(e) => Err(e),
            },
        }
    }

    fn a_binary(&self, token: &Token, symbols: &mut SymbolTable) -> (r: Result<u16, InstructionError>)
        requires
            old(symbols).wf(),
        ensures
            final(symbols).wf(),
            match a_word(old(symbols)@, token@) {
                Ok((w, t)) => r == Ok::<u16, InstructionError>(w) && final(symbols)@ == t,
                Err(e) => r == Err::<u16, InstructionError>(e),
            },
    {
        match &token.kind {
            TokenKind::Address(n) => {
                if *n > u16::MAX as u32 {
                    return Err(
                        self.error(EncodeErrorKind::AddressOutOfRange, token.line),
                    );
                }
                Ok(*n as u16)
            },
            TokenKind::Symbol(s) => {
                if symbols.lookup(s.as_str()).is_none() && symbols.is_full() {
                    return Err(
                        self.error(EncodeErrorKind::AddressOutOfRange, token.line),
                    );
                }
                Ok(symbols.address_for(s.as_str()))
            },
            _ => Err(self.error(EncodeErrorKind::InvalidOperand, token.line)),
        }
    }

    fn c_binary(&self, dest: &Vec<Token>, comp: &Expression, jump: &Option<Token>) -> (r: Result<
        u16,
        InstructionError,
    >)
        ensures
            r == c_word(tokens_view(dest@), comp@, option_token_view(*jump)),
    {
        let mut code: u16 = 0xE000;
        code = code | self.opcode(comp);
        let c = match self.comp_bits(comp) {
            Ok(c) => c,
            Err(e) => {
                return Err(e);
            },
        };
        code = code | c;
        let d = match self.dest_bits(dest) {
            Ok(d) => d,
            Err(e) => {
                return Err(e);
            },
        };
        code = code | d;
        let j = match self.jump_bits(jump) {
            Ok(j) => j,
            Err(e) => {
                return Err(e);
            },
        };
        code = code | j;
        Ok(code)
    }

    fn opcode(&self, comp: &Expression) -> (r: u16)
        ensures
            r == memory_bit(comp@),
    {
        match comp {
            Expression::Binary { left, operator: _, right } => {
                let l = self.memory_code(left);
                let r = self.memory_code(right);
                assert(l | r == (if l == 0x1000 || r == 0x1000 {
                    0x1000u16
                } else {
                    0u16
                })) by (bit_vector)
                    requires
                        l == 0 || l == 0x1000,
                        r == 0 || r == 0x1000,
                ;
                l | r
            },
            Expression::Unary { operator: _, right } => self.memory_code(right),
            Expression::Literal(t) => self.memory_code(t),
        }
    }

    fn memory_code(&self, t: &Token) -> (r: u16)
        ensures
            r == (if t@.kind is Memory {
                0x1000u16
            } else {
                0u16
            }),
    {
        match t.kind {
            TokenKind::Memory => 0x1000,
            _ => 0x0,
        }
    }

    fn comp_bits(&self, comp: &Expression) -> (r: Result<u16, InstructionError>)
        ensures
            match comp_bits_of(comp@) {
                Some(c) => r == Ok::<u16, InstructionError>(c),
                None => r == Err::<u16, InstructionError>(
                    InstructionError {
                        kind: EncodeErrorKind::InvalidComputation,
                        line: expression_line(comp@),
                    },
                ),
            },
    {
        let invalid = EncodeErrorKind::InvalidComputation;
        match comp {
            Expression::Binary { left, operator, right } => {
                let err = self.error(invalid, left.line);
                match (&operator.kind, &left.kind, &right.kind) {
                    (TokenKind::Plus, TokenKind::DRegister, TokenKind::Number(1)) => Ok(0x7C0),
                    (TokenKind::Plus, TokenKind::ARegister, TokenKind::Number(1)) => Ok(0xDC0),
                    (TokenKind::Plus, TokenKind::Memory, TokenKind::Number(1)) => Ok(0xDC0),
                    (TokenKind::Plus, TokenKind::DRegister, TokenKind::ARegister) => Ok(0x80),
                    (TokenKind::Plus, TokenKind::DRegister, TokenKind::Memory) => Ok(0x80),
                    (TokenKind::Minus, TokenKind::DRegister, TokenKind::Number(1)) => Ok(0x380),
                    (TokenKind::Minus, TokenKind::ARegister, TokenKind::Number(1)) => Ok(0xC80),
                    (TokenKind::Minus, TokenKind::Memory, TokenKind::Number(1)) => Ok(0xC80),
                    (TokenKind::Minus, TokenKind::DRegister, TokenKind::ARegister) => Ok(0x4C0),
                    (TokenKind::Minus, TokenKind::DRegister, TokenKind::Memory) => Ok(0x4C0),
                    (TokenKind::Minus, TokenKind::ARegister, TokenKind::DRegister) => Ok(0x1C0),
                    (TokenKind::Minus, TokenKind::Memory, TokenKind::DRegister) => Ok(0x1C0),
                    (TokenKind::And, TokenKind::DRegister, TokenKind::ARegister) => Ok(0x0),
                    (TokenKind::And, TokenKind::DRegister, TokenKind::Memory) => Ok(0x0),
                    (TokenKind::Or, TokenKind::DRegister, TokenKind::ARegister) => Ok(0x540),
                    (TokenKind::Or, TokenKind::DRegister, TokenKind::Memory) => Ok(0x540),
                    _ => Err(err),
                }
            },
            Expression::Unary { operator, right } => {
                let err = self.error(invalid, operator.line);
                match (&operator.kind, &right.kind) {
                    (TokenKind::Minus, TokenKind::Number(1)) => Ok(0xE80),
                    (TokenKind::Minus, TokenKind::DRegister) => Ok(0x3C0),
                    (TokenKind::Minus, TokenKind::ARegister) => Ok(0xCC0),
                    (TokenKind::Minus, TokenKind::Memory) => Ok(0xCC0),
                    (TokenKind::Not, TokenKind::DRegister) => Ok(0x340),
                    (TokenKind::Not, TokenKind::ARegister) => Ok(0xC40),
                    (TokenKind::Not, TokenKind::Memory) => Ok(0xC40),
                    _ => Err(err),
                }
            },
            Expression::Literal(t) => {
                match &t.kind {
                    TokenKind::Number(0) => Ok(0xA80),
                    TokenKind::Number(1) => Ok(0xFC0),
                    TokenKind::DRegister => Ok(0x300),
                    TokenKind::ARegister => Ok(0xC00),
                    TokenKind::Memory => Ok(0xC00),
                    _ => Err(self.error(invalid, t.line)),
                }
            },
        }
    }

    fn dest_bits(&self, dest: &Vec<Token>) -> (r: Result<u16, InstructionError>)
        ensures
            match dest_bits_from(tokens_view(dest@), 0, 0) {
                Ok(d) => r == Ok::<u16, InstructionError>(d),
                Err(line) => r == Err::<u16, InstructionError>(
                    InstructionError { kind: EncodeErrorKind::InvalidDestination, line },
                ),
            },
    {
        let ghost d = tokens_view(dest@);
        let mut out: u16 = 0x0;
        let mut i: usize = 0;
        while i < dest.len()
            invariant
                i <= dest@.len(),
                d == tokens_view(dest@),
                dest_bits_from(d, 0, 0) == dest_bits_from(d, i as int, out),
            decreases dest@.len() - i,
        {
            assert(d[i as int] == dest@[i as int]@);
            match dest[i].kind {
                TokenKind::ARegister => out = out | 0x20,
                TokenKind::DRegister => out = out | 0x10,
                TokenKind::Memory => out = out | 0x8,
                _ => {
                    return Err(self.error(EncodeErrorKind::InvalidDestination, dest[i].line));
                },
            };
            i += 1;
        }
        Ok(out)
    }

    fn jump_bits(&self, jump: &Option<Token>) -> (r: Result<u16, InstructionError>)
        ensures
            match jump_bits_of(option_token_view(*jump)) {
                Some(j) => r == Ok::<u16, InstructionError>(j),
                None => r == Err::<u16, InstructionError>(
                    InstructionError {
                        kind: EncodeErrorKind::InvalidJump,
                        line: option_token_view(*jump)->Some_0.line,
                    },
                ),
            },
    {
        match jump {
            Some(t) => match t.kind {
                TokenKind::Jump => Ok(0x7),
                TokenKind::JumpGreaterThan => Ok(0x1),
                TokenKind::JumpEqual => Ok(0x2),
                TokenKind::JumpGreaterThanEqual => Ok(0x3),
                TokenKind::JumpLessThan => Ok(0x4),
                TokenKind::JumpNotEqual => Ok(0x5),
                TokenKind::JumpLessThanEqual => Ok(0x6),
                _ => Err(self.error(EncodeErrorKind::InvalidJump, t.line)),
            },
            None => Ok(0x0),
        }
    }

    fn error(&self, kind: EncodeErrorKind, line: u32) -> (r: InstructionError)
        ensures
            r == (InstructionError { kind, line }),
    {
        InstructionError::new(kind, line)
    }
}

} // verus!
