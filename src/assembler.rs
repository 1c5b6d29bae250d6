use vstd::prelude::*;
use crate::instruction::{
    bits16, encoded_instruction, instructions_view, label_of, EncodeErrorKind, InstrModel,
    Instruction, InstructionError,
};
use crate::parser::{parsed, well_formed, ParseErrorModel, Parser, ParserError};
use crate::scanlines::{tokenize, tokenized};
use crate::scanner::ScannerError;
use crate::symbol_table::{fresh_table, with_label, SymbolTable, TableModel};
use crate::token::{Token, tokens_view};

verus! {

/// The first failure of an assembly run, from whichever stage it came.
#[derive(Debug)]
pub enum AssemblerError {
    ScanError(ScannerError),
    ParseError(ParserError),
    InstructionError(InstructionError),
}

pub enum AssemblyErrorModel {
    Scan(ScannerError),
    Parse(ParseErrorModel),
    Encode(InstructionError),
}

impl View for AssemblerError {
    type V = AssemblyErrorModel;

    open spec fn view(&self) -> AssemblyErrorModel {
        match self {
            AssemblerError::ScanError(e) => AssemblyErrorModel::Scan(*e),
            AssemblerError::ParseError(e) => AssemblyErrorModel::Parse(e@),
            AssemblerError::InstructionError(e) => AssemblyErrorModel::Encode(*e),
        }
    }
}

/// The first pass from instruction `i` on, `rom` being the ROM address of the next
/// instruction: each label gets the address of the instruction after it. A label whose
/// address would not fit in 16 bits is an address-range error.
pub open spec fn assign_labels(t: TableModel, prog: Seq<InstrModel>, i: int, rom: nat) -> Result<
    TableModel,
    InstructionError,
>
    decreases prog.len() - i,
{
    if i < 0 || i >= prog.len() {
        Ok(t)
    } else {
        match label_of(prog[i]) {
            Some((name, line)) => if rom > u16::MAX {
                Err(InstructionError { kind: EncodeErrorKind::AddressOutOfRange, line })
            } else {
                assign_labels(with_label(t, name, rom as u16), prog, i + 1, rom)
            },
            None => assign_labels(t, prog, i + 1, rom + 1),
        }
    }
}

/// The output line of an encoded instruction: its 16 digits and a newline; none for a label.
pub open spec fn output_line(w: Option<u16>) -> Seq<char> {
    match w {
        Some(w) => bits16(w).push('\n'),
        None => Seq::empty(),
    }
}

/// The second pass from instruction `i` on: the output text and the table after it.
pub open spec fn encode_from(t: TableModel, prog: Seq<InstrModel>, i: int) -> Result<
    (Seq<char>, TableModel),
    InstructionError,
>
    decreases prog.len() - i,
{
    if i < 0 || i >= prog.len() {
        Ok((Seq::empty(), t))
    } else {
        match encoded_instruction(t, prog[i]) {
            Err(e) => Err(e),
            Ok((w, t1)) => match encode_from(t1, prog, i + 1) {
                Err(e) => Err(e),
                Ok((out, t2)) => Ok((output_line(w) + out, t2)),
            },
        }
    }
}

/// Both passes over a program: the output text and the final table.
pub open spec fn encoded(t: TableModel, prog: Seq<InstrModel>) -> Result<
    (Seq<char>, TableModel),
    InstructionError,
> {
    match assign_labels(t, prog, 0, 0) {
        Err(e) => Err(e),
        Ok(t1) => encode_from(t1, prog, 0),
    }
}

/// The whole translation of a source text, starting from table `t`.
pub open spec fn assembled(t: TableModel, text: Seq<char>) -> Result<Seq<char>, AssemblyErrorModel> {
    match tokenized(text) {
        Err(e) => Err(AssemblyErrorModel::Scan(e)),
        Ok(ts) => match parsed(ts) {
            Err(e) => Err(AssemblyErrorModel::Parse(e)),
            Ok(prog) => match encoded(t, prog) {
                Err(e) => Err(AssemblyErrorModel::Encode(e)),
                Ok((out, _)) => Ok(out),
            },
        },
    }
}

/// Assembling the same source twice, each time from a fresh table, gives the same text
/// or the same error.
pub proof fn assembly_is_deterministic(first: TableModel, second: TableModel, text: Seq<char>)
    requires
        first == fresh_table(),
        second == fresh_table(),
    ensures
        assembled(first, text) == assembled(second, text),
{
}

/// The number of newline characters in `s`.
pub open spec fn newline_count(s: Seq<char>) -> nat
    decreases s.len(),
{
    if s.len() == 0 {
        0
    } else {
        (if s[0] == '\n' {
            1nat
        } else {
            0nat
        }) + newline_count(s.skip(1))
    }
}

/// The number of instructions from `i` on that are not label declarations.
pub open spec fn non_label_count(prog: Seq<InstrModel>, i: int) -> nat
    decreases prog.len() - i,
{
    if i < 0 || i >= prog.len() {
        0
    } else {
        (if prog[i] is Label {
            0nat
        } else {
            1nat
        }) + non_label_count(prog, i + 1)
    }
}

proof fn lemma_newline_count_concat(a: Seq<char>, b: Seq<char>)
    ensures
        newline_count(a + b) == newline_count(a) + newline_count(b),
    decreases a.len(),
{
    if a.len() > 0 {
        assert((a + b).skip(1) =~= a.skip(1) + b);
        assert((a + b)[0] == a[0]);
        lemma_newline_count_concat(a.skip(1), b);
    } else {
        assert(a + b =~= b);
    }
}

proof fn lemma_no_newline(s: Seq<char>)
    requires
        forall|i: int| 0 <= i < s.len() ==> s[i] != '\n',
    ensures
        newline_count(s) == 0,
    decreases s.len(),
{
    if s.len() > 0 {
        assert forall|i: int| 0 <= i < s.skip(1).len() implies s.skip(1)[i] != '\n' by {
            assert(s.skip(1)[i] == s[i + 1]);
        }
        lemma_no_newline(s.skip(1));
    }
}

proof fn lemma_output_line(w: Option<u16>)
    ensures
        newline_count(output_line(w)) == if w is Some {
            1nat
        } else {
            0nat
        },
{
    if let Some(v) = w {
        let b = bits16(v);
        assert forall|i: int| 0 <= i < b.len() implies b[i] != '\n' by {}
        lemma_no_newline(b);
        assert(b.push('\n') =~= b + seq!['\n']);
        lemma_newline_count_concat(b, seq!['\n']);
        assert(seq!['\n'].skip(1) =~= Seq::<char>::empty());
        assert(newline_count(Seq::<char>::empty()) == 0);
        assert(newline_count(seq!['\n']) == 1);
    } else {
        assert(newline_count(Seq::<char>::empty()) == 0);
    }
}

proof fn lemma_encode_from_lines(t: TableModel, prog: Seq<InstrModel>, i: int)
    requires
        0 <= i <= prog.len(),
    ensures
        encode_from(t, prog, i) matches Ok((out, _)) ==> newline_count(out) == non_label_count(
            prog,
            i,
        ),
    decreases prog.len() - i,
{
    if i < prog.len() {
        if let Ok((w, t1)) = encoded_instruction(t, prog[i]) {
            lemma_encode_from_lines(t1, prog, i + 1);
            lemma_output_line(w);
            if let Ok((rest, _)) = encode_from(t1, prog, i + 1) {
                lemma_newline_count_concat(output_line(w), rest);
            }
        }
    } else {
        assert(newline_count(Seq::<char>::empty()) == 0);
    }
}

/// A successful encoding has exactly one output line per instruction that is not a
/// label declaration.
pub proof fn one_line_per_instruction(t: TableModel, prog: Seq<InstrModel>)
    ensures
        encoded(t, prog) matches Ok((out, _)) ==> newline_count(out) == non_label_count(prog, 0),
{
    if let Ok(t1) = assign_labels(t, prog, 0, 0) {
        lemma_encode_from_lines(t1, prog, 0);
    }
}

/// Translates assembly source into its machine-code image, one run per assembler.
pub struct Assembler {
    symbols: SymbolTable,
}

impl Assembler {
    pub closed spec fn table(&self) -> TableModel {
        self.symbols@
    }

    pub closed spec fn wf(&self) -> bool {
        self.symbols.wf()
    }

    pub fn new() -> (r: Assembler)
        ensures
            r.wf(),
            r.table() == fresh_table(),
    {
        Assembler { symbols: SymbolTable::new() }
    }

    /// Scans, parses and encodes a whole source text; the first error of any stage stops
    /// the run.
    pub fn assemble(&mut self, text: &str) -> (r: Result<String, AssemblerError>)
        requires
            old(self).wf(),
            text@.len() < u32::MAX,
        ensures
            match assembled(old(self).table(), text@) {
                Ok(out) => r matches Ok(s) && s@ == out,
                Err(e) => r matches Err(err) && err@ == e,
            },
    {
        let tokens = match tokenize(text) {
            Ok(t) => t,
            Err(e) => {
                return Err(AssemblerError::ScanError(e));
            },
        };
        let instructions = match self.parse(tokens) {
            Ok(p) => p,
            Err(e) => {
                return Err(e);
            },
        };
        self.encode_binary(&instructions)
    }

    /// Parses a token stream that ends in end-of-input.
    pub fn parse(&mut self, tokens: Vec<Token>) -> (r: Result<Vec<Instruction>, AssemblerError>)
        requires
            well_formed(tokens_view(tokens@)),
        ensures
            *final(self) == *old(self),
            match parsed(tokens_view(tokens@)) {
                Ok(p) => r matches Ok(v) && instructions_view(v@) == p,
                Err(e) => r matches Err(err) && err@ == AssemblyErrorModel::Parse(e),
            },
    {
        let mut p = Parser::new(tokens);
        match p.parse() {
            Ok(v) => Ok(v),
            Err(e) => Err(AssemblerError::ParseError(e)),
        }
    }

    /// Runs both passes over a program: labels first, then one line of 16 binary digits
    /// per instruction that is not a label.
    pub fn encode_binary(&mut self, instructions: &Vec<Instruction>) -> (r: Result<
        String,
        AssemblerError,
    >)
        requires
            old(self).wf(),
        ensures
            final(self).wf(),
            match encoded(old(self).table(), instructions_view(instructions@)) {
                Ok((out, t)) => r matches Ok(s) && s@ == out && final(self).table() == t,
                Err(e) => r matches Err(err) && err@ == AssemblyErrorModel::Encode(e),
            },
    {
        let ghost prog = instructions_view(instructions@);
        let ghost t0 = self.table();
        let mut rom_address: usize = 0;
        let mut i: usize = 0;
        while i < instructions.len()
            invariant
                self.wf(),
                t0 == old(self).table(),
                prog == instructions_view(instructions@),
                i <= instructions@.len(),
                rom_address <= i,
                assign_labels(t0, prog, 0, 0) == assign_labels(
                    self.table(),
                    prog,
                    i as int,
                    rom_address as nat,
                ),
            decreases instructions@.len() - i,
        {
            let ins = &instructions[i];
            assert(prog[i as int] == ins@);
            match ins.symbol_string() {
                Some(s) => {
                    if rom_address > u16::MAX as usize {
                        return Err(
                            AssemblerError::InstructionError(
                                InstructionError {
                                    kind: EncodeErrorKind::AddressOutOfRange,
                                    line: Assembler::label_line(ins),
                                },
                            ),
                        );
                    }
                    self.symbols.add_symbol(s, rom_address as u16);
                },
                None => {
                    rom_address += 1;
                },
            };
            i += 1;
        }
        let ghost t1 = self.table();
        let mut out = String::new();
        let mut i: usize = 0;
        assert(out@ + Seq::<char>::empty() =~= Seq::<char>::empty());
        while i < instructions.len()
            invariant
                self.wf(),
                t0 == old(self).table(),
                prog == instructions_view(instructions@),
                i <= instructions@.len(),
                assign_labels(t0, prog, 0, 0) == Ok::<TableModel, InstructionError>(t1),
                ({
                    let whole = encode_from(t1, prog, 0);
                    let rest = encode_from(self.table(), prog, i as int);
                    &&& rest is Ok ==> whole == Ok::<(Seq<char>, TableModel), InstructionError>(
                        (out@ + rest->Ok_0.0, rest->Ok_0.1),
                    )
                    &&& rest is Err ==> whole == rest
                }),
            decreases instructions@.len() - i,
        {
            let ins = &instructions[i];
            assert(prog[i as int] == ins@);
            let ghost before = out@;
            match ins.binary_string(&mut self.symbols) {
                Ok(Some(b)) => {
                    out.append(b.as_str());
                    out.append("\n");
                    proof {
                        reveal_strlit("\n");
                        if let Ok((rest, t2)) = encode_from(self.table(), prog, i + 1) {
                            assert(out@ =~= before + b@.push('\n'));
                            assert(before + (b@.push('\n') + rest) =~= out@ + rest);
                        }
                    }
                },
                Ok(None) => {
                    proof {
                        if let Ok((rest, t2)) = encode_from(self.table(), prog, i + 1) {
                            assert(Seq::<char>::empty() + rest =~= rest);
                        }
                    }
                },
                Err(e) => {
                    return Err(AssemblerError::InstructionError(e));
                },
            }
            i += 1;
        }
        assert(out@ + Seq::<char>::empty() =~= out@);
        Ok(out)
    }

    /// The line of a label declaration's token.
    fn label_line(ins: &Instruction) -> (r: u32)
        ensures
            label_of(ins@) matches Some((_, line)) ==> r == line,
    {
        match ins {
            Instruction::Label(t) => t.line,
            Instruction::AInstruction(t) => t.line,
            Instruction::CInstruction { .. } => 0,
        }
    }
}

} // verus!
