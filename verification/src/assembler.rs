//! The two-pass assembler: text in, program bytes out.
//!
//! The first pass reads the source line by line: a line is trimmed; an empty
//! line or one that starts with `;` is skipped; otherwise what stands before
//! the first `;`, trimmed, is its code. Code that ends in `:` defines a label
//! at the address of the next instruction; any other code is an instruction,
//! two bytes long. The second pass turns each instruction line into its word,
//! high byte first, and stops at the first line it cannot read.
use vstd::prelude::*;
use crate::isa::{lemma_decode_encode, DecodeError, Instruction};
use crate::cpu::{executable, registers_in_range, word_at_pc, Machine};
use crate::text::{
    chars_of, copy_range, find_char, find_char_from, lines_of, lowercase, parse_unsigned,
    seqs_of, split_lines, split_tokens, string_of, to_lowercase, tokens, trim, trim_chars,
    unsigned_value, NUMBER_CAP,
};

verus! {

/// Why a source does not assemble; `line` counts from 1.
#[derive(Debug)]
#[allow(inconsistent_fields)]
pub enum AssemblerError {
    /// The first token of a line, lowercased, is no mnemonic.
    UnknownOpcode { line: usize, opcode: String },
    /// A register is not `r0` to `r7`.
    InvalidRegister { line: usize, reg: String },
    /// A label that is not defined (the assembler reads an undefined branch
    /// target as a number, so it never reports this).
    UnknownLabel { line: usize, label: String },
    /// A number above 255.
    ValueOverflow { line: usize, val: u16 },
    /// An instruction has fewer operands than it needs.
    MissingArgument { line: usize },
    /// An operand is not a number that fits in 16 bits.
    InvalidNumber { line: usize, val: String },
}

/// `AssemblerError` with its strings as character sequences.
#[allow(inconsistent_fields)]
pub enum AssemblerFault {
    UnknownOpcode { line: usize, opcode: Seq<char> },
    InvalidRegister { line: usize, reg: Seq<char> },
    UnknownLabel { line: usize, label: Seq<char> },
    ValueOverflow { line: usize, val: u16 },
    MissingArgument { line: usize },
    InvalidNumber { line: usize, val: Seq<char> },
}

impl View for AssemblerError {
    type V = AssemblerFault;

    open spec fn view(&self) -> AssemblerFault {
        match self {
            AssemblerError::UnknownOpcode { line, opcode } => AssemblerFault::UnknownOpcode {
                line: *line,
                opcode: opcode@,
            },
            AssemblerError::InvalidRegister { line, reg } => AssemblerFault::InvalidRegister {
                line: *line,
                reg: reg@,
            },
            AssemblerError::UnknownLabel { line, label } => AssemblerFault::UnknownLabel {
                line: *line,
                label: label@,
            },
            AssemblerError::ValueOverflow { line, val } => AssemblerFault::ValueOverflow {
                line: *line,
                val: *val,
            },
            AssemblerError::MissingArgument { line } => AssemblerFault::MissingArgument {
                line: *line,
            },
            AssemblerError::InvalidNumber { line, val } => AssemblerFault::InvalidNumber {
                line: *line,
                val: val@,
            },
        }
    }
}

/// A result with its error seen as an `AssemblerFault`.
pub open spec fn outcome<T>(r: Result<T, AssemblerError>) -> Result<T, AssemblerFault> {
    match r {
        Ok(v) => Ok(v),
        Err(e) => Err(e@),
    }
}

// ---------------------------------------------------------------------------
// Operands

/// The number of a register operand `r0`..`r7` (`r`, then what `u8::from_str`
/// reads, at most 7).
pub open spec fn register_number(s: Seq<char>) -> Option<u8> {
    if s.len() > 0 && s[0] == 'r' {
        match unsigned_value(s.drop_first(), 10) {
            Some(v) => if v <= 7 {
                Some(v as u8)
            } else {
                None
            },
            None => None,
        }
    } else {
        None
    }
}

/// Reading a register operand.
pub open spec fn parsed_register(s: Seq<char>, line: usize) -> Result<u8, AssemblerFault> {
    match register_number(s) {
        Some(r) => Ok(r),
        None => Err(AssemblerFault::InvalidRegister { line, reg: s }),
    }
}

/// The value of a numeric operand: after `0x`, hexadecimal; otherwise
/// decimal (in the forms `from_str_radix` reads, before its range check).
pub open spec fn number_value(s: Seq<char>) -> Option<nat> {
    if s.len() >= 2 && s[0] == '0' && s[1] == 'x' {
        unsigned_value(s.skip(2), 16)
    } else {
        unsigned_value(s, 10)
    }
}

/// Reading a numeric operand: a number that fits in 16 bits, and then in 8.
pub open spec fn parsed_immediate(s: Seq<char>, line: usize) -> Result<u8, AssemblerFault> {
    match number_value(s) {
        Some(v) => if v > 65535 {
            Err(AssemblerFault::InvalidNumber { line, val: s })
        } else if v > 255 {
            Err(AssemblerFault::ValueOverflow { line, val: v as u16 })
        } else {
            Ok(v as u8)
        },
        None => Err(AssemblerFault::InvalidNumber { line, val: s }),
    }
}

/// `[...]`: a memory operand that names a pointer register.
pub open spec fn is_bracketed(s: Seq<char>) -> bool {
    s.len() > 0 && s[0] == '[' && s.last() == ']'
}

/// What stands between the brackets.
pub open spec fn bracketed_inner(s: Seq<char>) -> Seq<char> {
    s.subrange(1, s.len() - 1)
}

/// An operand that may be a register or a number is a register when its
/// lowercase form `low` starts with `r`.
pub open spec fn names_register(low: Seq<char>) -> bool {
    low.len() > 0 && low[0] == 'r'
}

/// The lowercase forms of tokens (what `str::to_lowercase` gives for each).
pub open spec fn lowercased(toks: Seq<Seq<char>>) -> Seq<Seq<char>> {
    toks.map_values(|t: Seq<char>| lowercase(t))
}

/// The instruction names.
#[derive(Debug, Clone, Copy, PartialEq, Eq, Structural)]
pub enum Mnemonic {
    LoadI,
    Mov,
    Load,
    Store,
    Shl,
    Shr,
    Add,
    Sub,
    And,
    Or,
    Cmp,
    Not,
    Brz,
    Brn,
    Brc,
    Jmp,
    Out,
    Halt,
}

/// The mnemonic spelt by `s`, if any (the caller lowercases).
pub open spec fn mnemonic(s: Seq<char>) -> Option<Mnemonic> {
    if s == seq!['l', 'o', 'a', 'd', 'i'] {
        Some(Mnemonic::LoadI)
    } else if s == seq!['m', 'o', 'v'] {
        Some(Mnemonic::Mov)
    } else if s == seq!['l', 'o', 'a', 'd'] {
        Some(Mnemonic::Load)
    } else if s == seq!['s', 't', 'o', 'r', 'e'] {
        Some(Mnemonic::Store)
    } else if s == seq!['s', 'h', 'l'] {
        Some(Mnemonic::Shl)
    } else if s == seq!['s', 'h', 'r'] {
        Some(Mnemonic::Shr)
    } else if s == seq!['a', 'd', 'd'] {
        Some(Mnemonic::Add)
    } else if s == seq!['s', 'u', 'b'] {
        Some(Mnemonic::Sub)
    } else if s == seq!['a', 'n', 'd'] {
        Some(Mnemonic::And)
    } else if s == seq!['o', 'r'] {
        Some(Mnemonic::Or)
    } else if s == seq!['c', 'm', 'p'] {
        Some(Mnemonic::Cmp)
    } else if s == seq!['n', 'o', 't'] {
        Some(Mnemonic::Not)
    } else if s == seq!['b', 'r', 'z'] {
        Some(Mnemonic::Brz)
    } else if s == seq!['b', 'r', 'n'] {
        Some(Mnemonic::Brn)
    } else if s == seq!['b', 'r', 'c'] {
        Some(Mnemonic::Brc)
    } else if s == seq!['j', 'm', 'p'] {
        Some(Mnemonic::Jmp)
    } else if s == seq!['o', 'u', 't'] {
        Some(Mnemonic::Out)
    } else if s == seq!['h', 'a', 'l', 't'] {
        Some(Mnemonic::Halt)
    } else {
        None
    }
}

/// How an operand is read.
#[derive(Debug, Clone, Copy, PartialEq, Eq, Structural)]
pub enum OperandKind {
    /// `r0`..`r7`.
    Register,
    /// A number.
    Immediate,
    /// `[rN]` or a number.
    Memory,
    /// A register when its lowercase starts with `r`, else a number.
    RegisterOrImmediate,
    /// A label defined in the table, else a number.
    Target,
}

/// The kinds of the first and second operand of each mnemonic.
pub open spec fn operand_kinds(m: Mnemonic) -> (Option<OperandKind>, Option<OperandKind>) {
    match m {
        Mnemonic::LoadI | Mnemonic::Shl | Mnemonic::Shr | Mnemonic::Out => (
            Some(OperandKind::Register),
            Some(OperandKind::Immediate),
        ),
        Mnemonic::Mov => (Some(OperandKind::Register), Some(OperandKind::Register)),
        Mnemonic::Load | Mnemonic::Store => (
            Some(OperandKind::Register),
            Some(OperandKind::Memory),
        ),
        Mnemonic::Add | Mnemonic::Sub | Mnemonic::And | Mnemonic::Or | Mnemonic::Cmp => (
            Some(OperandKind::Register),
            Some(OperandKind::RegisterOrImmediate),
        ),
        Mnemonic::Not => (Some(OperandKind::RegisterOrImmediate), None),
        Mnemonic::Brz | Mnemonic::Brn | Mnemonic::Brc | Mnemonic::Jmp => (
            Some(OperandKind::Target),
            None,
        ),
        Mnemonic::Halt => (None, None),
    }
}

/// Reading one operand `s`, whose lowercase form is `low`.
pub open spec fn parsed_operand(
    symbols: Map<Seq<char>, u16>,
    kind: OperandKind,
    s: Seq<char>,
    low: Seq<char>,
    line: usize,
) -> Result<u8, AssemblerFault> {
    match kind {
        OperandKind::Register => parsed_register(s, line),
        OperandKind::Immediate => parsed_immediate(s, line),
        OperandKind::Memory => if is_bracketed(s) {
            parsed_register(bracketed_inner(s), line)
        } else {
            parsed_immediate(s, line)
        },
        OperandKind::RegisterOrImmediate => if names_register(low) {
            parsed_register(s, line)
        } else {
            parsed_immediate(s, line)
        },
        OperandKind::Target => if symbols.contains_key(s) {
            Ok(symbols[s] as u8)
        } else {
            parsed_immediate(s, line)
        },
    }
}

/// Reading the operands of a line (tokens after the first), in order: the
/// first must be there, then it is read, then the second must be there,
/// then it is read. Missing operands read as 0.
pub open spec fn parsed_operands(
    symbols: Map<Seq<char>, u16>,
    m: Mnemonic,
    line: usize,
    toks: Seq<Seq<char>>,
    lows: Seq<Seq<char>>,
) -> Result<(u8, u8), AssemblerFault> {
    match operand_kinds(m).0 {
        None => Ok((0, 0)),
        Some(k1) => if toks.len() < 2 {
            Err(AssemblerFault::MissingArgument { line })
        } else {
            match parsed_operand(symbols, k1, toks[1], lows[1], line) {
                Err(e) => Err(e),
                Ok(a) => match operand_kinds(m).1 {
                    None => Ok((a, 0)),
                    Some(k2) => if toks.len() < 3 {
                        Err(AssemblerFault::MissingArgument { line })
                    } else {
                        match parsed_operand(symbols, k2, toks[2], lows[2], line) {
                            Err(e) => Err(e),
                            Ok(b) => Ok((a, b)),
                        }
                    },
                },
            }
        },
    }
}

/// Whether a line takes the second form of its mnemonic: indirect memory,
/// register operand, or (for `not`) a register.
pub open spec fn alternate_form(m: Mnemonic, toks: Seq<Seq<char>>, lows: Seq<Seq<char>>) -> bool {
    match m {
        Mnemonic::Load | Mnemonic::Store => is_bracketed(toks[2]),
        Mnemonic::Add | Mnemonic::Sub | Mnemonic::And | Mnemonic::Or | Mnemonic::Cmp =>
            names_register(lows[2]),
        Mnemonic::Not => names_register(lows[1]),
        _ => false,
    }
}

/// The instruction of a mnemonic, its operand values and its form.
pub open spec fn built(m: Mnemonic, a: u8, b: u8, alt: bool) -> Instruction {
    match m {
        Mnemonic::LoadI => Instruction::LoadI { dst: a, imm: b },
        Mnemonic::Mov => Instruction::Mov { dst: a, src: b },
        Mnemonic::Load => if alt {
            Instruction::LoadIndirect { dst: a, ptr: b }
        } else {
            Instruction::Load { dst: a, addr: b }
        },
        Mnemonic::Store => if alt {
            Instruction::StoreIndirect { src: a, ptr: b }
        } else {
            Instruction::Store { src: a, addr: b }
        },
        Mnemonic::Shl => Instruction::Shl { src: a, amt: b },
        Mnemonic::Shr => Instruction::Shr { src: a, amt: b },
        Mnemonic::Add => if alt {
            Instruction::Add { dst: a, src: b }
        } else {
            Instruction::AddI { dst: a, imm: b }
        },
        Mnemonic::Sub => if alt {
            Instruction::Sub { dst: a, src: b }
        } else {
            Instruction::SubI { dst: a, imm: b }
        },
        Mnemonic::And => if alt {
            Instruction::And { dst: a, src: b }
        } else {
            Instruction::AndI { dst: a, imm: b }
        },
        Mnemonic::Or => if alt {
            Instruction::Or { dst: a, src: b }
        } else {
            Instruction::OrI { dst: a, imm: b }
        },
        Mnemonic::Cmp => if alt {
            Instruction::Cmp { reg1: a, reg2: b }
        } else {
            Instruction::CmpI { reg: a, imm: b }
        },
        Mnemonic::Not => if alt {
            Instruction::Not { src: a }
        } else {
            Instruction::NotI { imm: a }
        },
        Mnemonic::Brz => Instruction::Brz { addr: a },
        Mnemonic::Brn => Instruction::Brn { addr: a },
        Mnemonic::Brc => Instruction::Brc { addr: a },
        Mnemonic::Jmp => Instruction::Jmp { addr: a },
        Mnemonic::Out => Instruction::Out { reg: a, port: b },
        Mnemonic::Halt => Instruction::Halt,
    }
}

/// Reading the tokens of one instruction line, given their lowercase forms
/// `lows`: the lowercase first token names the mnemonic (an unknown one is
/// reported in that form); the operands follow.
#[verifier::opaque]
pub open spec fn line_reading(
    symbols: Map<Seq<char>, u16>,
    line: usize,
    toks: Seq<Seq<char>>,
    lows: Seq<Seq<char>>,
) -> Result<Instruction, AssemblerFault> {
    let op = lows[0];
    match mnemonic(op) {
        None => Err(AssemblerFault::UnknownOpcode { line, opcode: op }),
        Some(m) => match parsed_operands(symbols, m, line, toks, lows) {
            Err(e) => Err(e),
            Ok((a, b)) => Ok(built(m, a, b, alternate_form(m, toks, lows))),
        },
    }
}

/// Reading the tokens of one instruction line.
pub open spec fn parsed_line(symbols: Map<Seq<char>, u16>, line: usize, toks: Seq<Seq<char>>) -> Result<
    Instruction,
    AssemblerFault,
> {
    line_reading(symbols, line, toks, lowercased(toks))
}

// ---------------------------------------------------------------------------
// Lines and the two passes

/// What a source line holds.
pub enum LineKind {
    Blank,
    Label(Seq<char>),
    Code(Seq<char>),
}

/// Classifying a source line.
pub open spec fn classify(line: Seq<char>) -> LineKind {
    let t = trim(line);
    if t.len() == 0 || t[0] == ';' {
        LineKind::Blank
    } else {
        let code = trim(t.take(find_char(t, ';', 0)));
        if code.len() > 0 && code.last() == ':' {
            LineKind::Label(code.drop_last())
        } else {
            LineKind::Code(code)
        }
    }
}

/// The instruction lines of a source, with their line numbers.
pub open spec fn code_lines(lines: Seq<Seq<char>>) -> Seq<(usize, Seq<char>)>
    decreases lines.len(),
{
    if lines.len() == 0 {
        Seq::empty()
    } else {
        let before = code_lines(lines.drop_last());
        match classify(lines.last()) {
            LineKind::Code(c) => before.push((lines.len() as usize, c)),
            _ => before,
        }
    }
}

/// The label table after the first pass: each label maps to twice the number
/// of instruction lines before it; a later definition replaces an earlier one.
pub open spec fn label_table(symbols: Map<Seq<char>, u16>, lines: Seq<Seq<char>>) -> Map<
    Seq<char>,
    u16,
>
    decreases lines.len(),
{
    if lines.len() == 0 {
        symbols
    } else {
        let table = label_table(symbols, lines.drop_last());
        match classify(lines.last()) {
            LineKind::Label(l) => table.insert(
                l,
                (2 * code_lines(lines.drop_last()).len()) as u16,
            ),
            _ => table,
        }
    }
}

/// The high and low byte of a word.
pub open spec fn word_bytes(w: u16) -> Seq<u8> {
    seq![(w / 256) as u8, (w % 256) as u8]
}

/// The bytes of the instruction lines, or the error of the first line that
/// cannot be read.
pub open spec fn encoded_lines(symbols: Map<Seq<char>, u16>, codes: Seq<(usize, Seq<char>)>) -> Result<
    Seq<u8>,
    AssemblerFault,
>
    decreases codes.len(),
{
    if codes.len() == 0 {
        Ok(Seq::empty())
    } else {
        match encoded_lines(symbols, codes.drop_last()) {
            Err(e) => Err(e),
            Ok(bytes) => match parsed_line(symbols, codes.last().0, tokens(codes.last().1)) {
                Err(e) => Err(e),
                Ok(i) => Ok(bytes + word_bytes(i.encoded())),
            },
        }
    }
}

/// The label table after assembling `input`, and the program or the error.
pub open spec fn assembled(symbols: Map<Seq<char>, u16>, input: Seq<char>) -> (
    Map<Seq<char>, u16>,
    Result<Seq<u8>, AssemblerFault>,
) {
    let lines = lines_of(input);
    let table = label_table(symbols, lines);
    (table, encoded_lines(table, code_lines(lines)))
}

/// The sources that the assembler reads to the end: at most 32767
/// instruction lines (the address counter is 16 bits), each with at least
/// one token (a line of commas has none).
pub open spec fn assemblable(input: Seq<char>) -> bool {
    let codes = code_lines(lines_of(input));
    &&& codes.len() <= 32767
    &&& all_have_tokens(codes)
}

/// Every line has at least one token.
pub open spec fn all_have_tokens(codes: Seq<(usize, Seq<char>)>) -> bool {
    forall|k: int| 0 <= k < codes.len() ==> tokens(#[trigger] codes[k].1).len() > 0
}


// ---------------------------------------------------------------------------
// Reading operands

/// Reads a register operand `r0`..`r7`.
fn parse_reg(reg: &Vec<char>, line: usize) -> (r: Result<u8, AssemblerError>)
    ensures
        outcome(r) == parsed_register(reg@, line),
{
    if reg.len() == 0 || reg[0] != 'r' {
        return Err(AssemblerError::InvalidRegister { line, reg: string_of(reg) });
    }
    assert(reg@.skip(1) =~= reg@.drop_first());
    match parse_unsigned(reg, 1, 10) {
        Some(v) => if v <= 7 {
            Ok(v as u8)
        } else {
            Err(AssemblerError::InvalidRegister { line, reg: string_of(reg) })
        },
        None => Err(AssemblerError::InvalidRegister { line, reg: string_of(reg) }),
    }
}

/// Reads a numeric operand: `0x` and hex digits, or decimal digits, at most 255.
fn parse_imm(imm: &Vec<char>, line: usize) -> (r: Result<u8, AssemblerError>)
    ensures
        outcome(r) == parsed_immediate(imm@, line),
{
    let val = if imm.len() >= 2 && imm[0] == '0' && imm[1] == 'x' {
        parse_unsigned(imm, 2, 16)
    } else {
        assert(imm@.skip(0) =~= imm@);
        parse_unsigned(imm, 0, 10)
    };
    match val {
        Some(v) => if v >= NUMBER_CAP {
            Err(AssemblerError::InvalidNumber { line, val: string_of(imm) })
        } else if v > 255 {
            Err(AssemblerError::ValueOverflow { line, val: v as u16 })
        } else {
            Ok(v as u8)
        },
        None => Err(AssemblerError::InvalidNumber { line, val: string_of(imm) }),
    }
}

/// Whether `s` spells `w`.
fn is_word(s: &Vec<char>, w: &[char]) -> (b: bool)
    ensures
        b == (s@ == w@),
{
    if s.len() != w.len() {
        return false;
    }
    let mut i: usize = 0;
    while i < s.len()
        invariant
            s@.len() == w@.len(),
            i <= s@.len(),
            s@.take(i as int) == w@.take(i as int),
        decreases s@.len() - i,
    {
        if s[i] != w[i] {
            return false;
        }
        assert(s@.take(i + 1) =~= s@.take(i as int).push(s@[i as int]));
        assert(w@.take(i + 1) =~= w@.take(i as int).push(w@[i as int]));
        i += 1;
    }
    assert(s@ =~= s@.take(i as int));
    assert(w@ =~= w@.take(i as int));
    true
}

/// The mnemonic spelt by `s` (see `mnemonic`).
fn mnemonic_of(s: &Vec<char>) -> (r: Option<Mnemonic>)
    ensures
        r == mnemonic(s@),
{
    if is_word(s, &['l', 'o', 'a', 'd', 'i']) {
        Some(Mnemonic::LoadI)
    } else if is_word(s, &['m', 'o', 'v']) {
        Some(Mnemonic::Mov)
    } else if is_word(s, &['l', 'o', 'a', 'd']) {
        Some(Mnemonic::Load)
    } else if is_word(s, &['s', 't', 'o', 'r', 'e']) {
        Some(Mnemonic::Store)
    } else if is_word(s, &['s', 'h', 'l']) {
        Some(Mnemonic::Shl)
    } else if is_word(s, &['s', 'h', 'r']) {
        Some(Mnemonic::Shr)
    } else if is_word(s, &['a', 'd', 'd']) {
        Some(Mnemonic::Add)
    } else if is_word(s, &['s', 'u', 'b']) {
        Some(Mnemonic::Sub)
    } else if is_word(s, &['a', 'n', 'd']) {
        Some(Mnemonic::And)
    } else if is_word(s, &['o', 'r']) {
        Some(Mnemonic::Or)
    } else if is_word(s, &['c', 'm', 'p']) {
        Some(Mnemonic::Cmp)
    } else if is_word(s, &['n', 'o', 't']) {
        Some(Mnemonic::Not)
    } else if is_word(s, &['b', 'r', 'z']) {
        Some(Mnemonic::Brz)
    } else if is_word(s, &['b', 'r', 'n']) {
        Some(Mnemonic::Brn)
    } else if is_word(s, &['b', 'r', 'c']) {
        Some(Mnemonic::Brc)
    } else if is_word(s, &['j', 'm', 'p']) {
        Some(Mnemonic::Jmp)
    } else if is_word(s, &['o', 'u', 't']) {
        Some(Mnemonic::Out)
    } else if is_word(s, &['h', 'a', 'l', 't']) {
        Some(Mnemonic::Halt)
    } else {
        None
    }
}


// ---------------------------------------------------------------------------
// The label table

/// The value of the last entry for `k`, if any.
pub open spec fn lookup(entries: Seq<(Seq<char>, u16)>, k: Seq<char>) -> Option<u16>
    decreases entries.len(),
{
    if entries.len() == 0 {
        None
    } else if entries.last().0 == k {
        Some(entries.last().1)
    } else {
        lookup(entries.drop_last(), k)
    }
}

/// The assembler; it keeps its label table from one run to the next.
pub struct Assembler {
    /// Label definitions in order; the last one of a name counts.
    symbol_table: Vec<(Vec<char>, u16)>,
}

impl Assembler {
    /// The definitions in the table, as sequences.
    pub closed spec fn entries(&self) -> Seq<(Seq<char>, u16)> {
        self.symbol_table@.map_values(|e: (Vec<char>, u16)| (e.0@, e.1))
    }
}

impl View for Assembler {
    type V = Map<Seq<char>, u16>;

    /// The label table: each label and its address.
    closed spec fn view(&self) -> Map<Seq<char>, u16> {
        Map::new(
            |k: Seq<char>| lookup(self.entries(), k) is Some,
            |k: Seq<char>| lookup(self.entries(), k)->Some_0,
        )
    }
}

impl Default for Assembler {
    fn default() -> (a: Self)
        ensures
            a@ == Map::<Seq<char>, u16>::empty(),
    {
        let a = Assembler { symbol_table: Vec::new() };
        assert(a@ =~= Map::<Seq<char>, u16>::empty());
        a
    }
}

impl Assembler {
    /// The address of label `k`, if it is defined.
    fn label_address(&self, k: &Vec<char>) -> (r: Option<u16>)
        ensures
            r == (if self@.contains_key(k@) {
                Some(self@[k@])
            } else {
                None::<u16>
            }),
    {
        let mut j = self.symbol_table.len();
        assert(self.entries().take(j as int) =~= self.entries());
        while j > 0
            invariant
                j <= self.symbol_table@.len(),
                lookup(self.entries(), k@) == lookup(self.entries().take(j as int), k@),
            decreases j,
        {
            let entry = &self.symbol_table[j - 1];
            assert(self.entries().take(j as int).drop_last() =~= self.entries().take(j - 1));
            if is_word(&entry.0, k.as_slice()) {
                return Some(entry.1);
            }
            j -= 1;
        }
        None
    }
}

impl Assembler {
    /// Defines (or redefines) label `k` at address `v`.
    fn define_label(&mut self, k: Vec<char>, v: u16)
        ensures
            final(self)@ == old(self)@.insert(k@, v),
    {
        let ghost old_entries = self.entries();
        self.symbol_table.push((k, v));
        assert(self.entries() =~= old_entries.push((k@, v)));
        assert(self.entries().drop_last() =~= old_entries);
        assert(self@ =~= old(self)@.insert(k@, v));
    }

    /// Reads one operand (see `parsed_operand`).
    fn parse_operand(&self, kind: OperandKind, s: &Vec<char>, low: &Vec<char>, line: usize) -> (r: Result<
        u8,
        AssemblerError,
    >)
        ensures
            outcome(r) == parsed_operand(self@, kind, s@, low@, line),
    {
        match kind {
            OperandKind::Register => parse_reg(s, line),
            OperandKind::Immediate => parse_imm(s, line),
            OperandKind::Memory => if is_bracketed_chars(s) {
                let inner = copy_range(s, 1, s.len() - 1);
                parse_reg(&inner, line)
            } else {
                parse_imm(s, line)
            },
            OperandKind::RegisterOrImmediate => if starts_register(low) {
                parse_reg(s, line)
            } else {
                parse_imm(s, line)
            },
            OperandKind::Target => match self.label_address(s) {
                Some(address) => Ok(address as u8),
                None => parse_imm(s, line),
            },
        }
    }

    /// Reads the tokens of one instruction line (see `parsed_line`).
    fn parse_line(&self, line: usize, toks: &Vec<Vec<char>>) -> (r: Result<
        Instruction,
        AssemblerError,
    >)
        requires
            toks@.len() > 0,
        ensures
            outcome(r) == parsed_line(self@, line, seqs_of(toks@)),
    {
        let mut lowered: Vec<Vec<char>> = Vec::new();
        let n = toks.len();
        for k in 0..n
            invariant
                n == toks@.len(),
                seqs_of(lowered@) == lowercased(seqs_of(toks@)).take(k as int),
        {
            let low = to_lowercase(&toks[k]);
            let ghost before = seqs_of(lowered@);
            lowered.push(low);
            assert(seqs_of(toks@)[k as int] == toks@[k as int]@);
            assert(lowercased(seqs_of(toks@))[k as int] == lowercase(toks@[k as int]@));
            assert(seqs_of(lowered@) =~= before.push(low@));
            assert(seqs_of(lowered@) =~= lowercased(seqs_of(toks@)).take(k + 1));
        }
        assert(lowered@.len() == n);
        assert(seqs_of(lowered@) =~= lowercased(seqs_of(toks@)));
        self.read_instruction(line, toks, &lowered)
    }

    /// Reads the tokens of one instruction line, given the lowercase form of
    /// each token (see `line_reading`).
    pub fn read_instruction(&self, line: usize, toks: &Vec<Vec<char>>, lowered: &Vec<Vec<char>>) -> (r: Result<
        Instruction,
        AssemblerError,
    >)
        requires
            toks@.len() > 0,
            lowered@.len() == toks@.len(),
        ensures
            outcome(r) == line_reading(self@, line, seqs_of(toks@), seqs_of(lowered@)),
    {
        reveal(line_reading);
        let m = match mnemonic_of(&lowered[0]) {
            Some(m) => m,
            None => {
                return Err(AssemblerError::UnknownOpcode { line, opcode: string_of(&lowered[0]) });
            },
        };
        let (k1, k2) = kinds_of(m);
        let (a, b): (u8, u8) = match k1 {
            None => (0, 0),
            Some(k1) => {
                if toks.len() < 2 {
                    return Err(AssemblerError::MissingArgument { line });
                }
                let a = match self.parse_operand(k1, &toks[1], &lowered[1], line) {
                    Ok(a) => a,
                    Err(e) => {
                        return Err(e);
                    },
                };
                match k2 {
                    None => (a, 0),
                    Some(k2) => {
                        if toks.len() < 3 {
                            return Err(AssemblerError::MissingArgument { line });
                        }
                        let b = match self.parse_operand(k2, &toks[2], &lowered[2], line) {
                            Ok(b) => b,
                            Err(e) => {
                                return Err(e);
                            },
                        };
                        (a, b)
                    },
                }
            },
        };
        let alt = match m {
            Mnemonic::Load | Mnemonic::Store => is_bracketed_chars(&toks[2]),
            Mnemonic::Add | Mnemonic::Sub | Mnemonic::And | Mnemonic::Or | Mnemonic::Cmp =>
                starts_register(&lowered[2]),
            Mnemonic::Not => starts_register(&lowered[1]),
            _ => false,
        };
        Ok(build(m, a, b, alt))
    }
}

/// `[...]` (see `is_bracketed`).
fn is_bracketed_chars(s: &Vec<char>) -> (b: bool)
    ensures
        b == is_bracketed(s@),
{
    s.len() > 0 && s[0] == '[' && s[s.len() - 1] == ']'
}

/// Whether a lowercase form starts with `r` (see `names_register`).
fn starts_register(low: &Vec<char>) -> (b: bool)
    ensures
        b == names_register(low@),
{
    low.len() > 0 && low[0] == 'r'
}

/// The operand kinds of a mnemonic (see `operand_kinds`).
fn kinds_of(m: Mnemonic) -> (r: (Option<OperandKind>, Option<OperandKind>))
    ensures
        r == operand_kinds(m),
{
    match m {
        Mnemonic::LoadI | Mnemonic::Shl | Mnemonic::Shr | Mnemonic::Out => (
            Some(OperandKind::Register),
            Some(OperandKind::Immediate),
        ),
        Mnemonic::Mov => (Some(OperandKind::Register), Some(OperandKind::Register)),
        Mnemonic::Load | Mnemonic::Store => (
            Some(OperandKind::Register),
            Some(OperandKind::Memory),
        ),
        Mnemonic::Add | Mnemonic::Sub | Mnemonic::And | Mnemonic::Or | Mnemonic::Cmp => (
            Some(OperandKind::Register),
            Some(OperandKind::RegisterOrImmediate),
        ),
        Mnemonic::Not => (Some(OperandKind::RegisterOrImmediate), None),
        Mnemonic::Brz | Mnemonic::Brn | Mnemonic::Brc | Mnemonic::Jmp => (
            Some(OperandKind::Target),
            None,
        ),
        Mnemonic::Halt => (None, None),
    }
}

/// The instruction of a mnemonic, its operands and its form (see `built`).
fn build(m: Mnemonic, a: u8, b: u8, alt: bool) -> (i: Instruction)
    ensures
        i == built(m, a, b, alt),
{
    match m {
        Mnemonic::LoadI => Instruction::LoadI { dst: a, imm: b },
        Mnemonic::Mov => Instruction::Mov { dst: a, src: b },
        Mnemonic::Load => if alt {
            Instruction::LoadIndirect { dst: a, ptr: b }
        } else {
            Instruction::Load { dst: a, addr: b }
        },
        Mnemonic::Store => if alt {
            Instruction::StoreIndirect { src: a, ptr: b }
        } else {
            Instruction::Store { src: a, addr: b }
        },
        Mnemonic::Shl => Instruction::Shl { src: a, amt: b },
        Mnemonic::Shr => Instruction::Shr { src: a, amt: b },
        Mnemonic::Add => if alt {
            Instruction::Add { dst: a, src: b }
        } else {
            Instruction::AddI { dst: a, imm: b }
        },
        Mnemonic::Sub => if alt {
            Instruction::Sub { dst: a, src: b }
        } else {
            Instruction::SubI { dst: a, imm: b }
        },
        Mnemonic::And => if alt {
            Instruction::And { dst: a, src: b }
        } else {
            Instruction::AndI { dst: a, imm: b }
        },
        Mnemonic::Or => if alt {
            Instruction::Or { dst: a, src: b }
        } else {
            Instruction::OrI { dst: a, imm: b }
        },
        Mnemonic::Cmp => if alt {
            Instruction::Cmp { reg1: a, reg2: b }
        } else {
            Instruction::CmpI { reg: a, imm: b }
        },
        Mnemonic::Not => if alt {
            Instruction::Not { src: a }
        } else {
            Instruction::NotI { imm: a }
        },
        Mnemonic::Brz => Instruction::Brz { addr: a },
        Mnemonic::Brn => Instruction::Brn { addr: a },
        Mnemonic::Brc => Instruction::Brc { addr: a },
        Mnemonic::Jmp => Instruction::Jmp { addr: a },
        Mnemonic::Out => Instruction::Out { reg: a, port: b },
        Mnemonic::Halt => Instruction::Halt,
    }
}

// ---------------------------------------------------------------------------
// The passes

/// A classified source line.
enum SourceLine {
    Blank,
    Label(Vec<char>),
    Code(Vec<char>),
}

spec fn kind_of(l: SourceLine) -> LineKind {
    match l {
        SourceLine::Blank => LineKind::Blank,
        SourceLine::Label(v) => LineKind::Label(v@),
        SourceLine::Code(v) => LineKind::Code(v@),
    }
}

/// Classifies a source line (see `classify`).
fn classify_line(line: &Vec<char>) -> (r: SourceLine)
    ensures
        kind_of(r) == classify(line@),
{
    let t = trim_chars(line);
    if t.len() == 0 || t[0] == ';' {
        return SourceLine::Blank;
    }
    let k = find_char_from(&t, ';', 0);
    let before = copy_range(&t, 0, k);
    assert(before@ =~= t@.take(find_char(t@, ';', 0)));
    let code = trim_chars(&before);
    if code.len() > 0 && code[code.len() - 1] == ':' {
        let label = copy_range(&code, 0, code.len() - 1);
        assert(label@ =~= code@.drop_last());
        SourceLine::Label(label)
    } else {
        SourceLine::Code(code)
    }
}

/// The sequences of a list of numbered lines.
pub open spec fn numbered(v: Seq<(usize, Vec<char>)>) -> Seq<(usize, Seq<char>)> {
    v.map_values(|e: (usize, Vec<char>)| (e.0, e.1@))
}

proof fn lemma_code_lines_grow(lines: Seq<Seq<char>>, i: int, j: int)
    requires
        0 <= i <= j <= lines.len(),
    ensures
        code_lines(lines.take(i)).len() <= code_lines(lines.take(j)).len(),
    decreases j - i,
{
    if i < j {
        lemma_code_lines_grow(lines, i, j - 1);
        assert(lines.take(j).drop_last() =~= lines.take(j - 1));
    }
}

proof fn lemma_encoded_error_stays(
    symbols: Map<Seq<char>, u16>,
    codes: Seq<(usize, Seq<char>)>,
    i: int,
    j: int,
)
    requires
        0 <= i <= j <= codes.len(),
        encoded_lines(symbols, codes.take(i)) is Err,
    ensures
        encoded_lines(symbols, codes.take(j)) == encoded_lines(symbols, codes.take(i)),
    decreases j - i,
{
    if i < j {
        lemma_encoded_error_stays(symbols, codes, i, j - 1);
        assert(codes.take(j).drop_last() =~= codes.take(j - 1));
    }
}

/// The bytes of a result, as a sequence.
pub open spec fn program_outcome(r: Result<Vec<u8>, AssemblerError>) -> Result<
    Seq<u8>,
    AssemblerFault,
> {
    match r {
        Ok(v) => Ok(v@),
        Err(e) => Err(e@),
    }
}

/// The high and low byte of a word (see `word_bytes`).
fn split_word(w: u16) -> (r: (u8, u8))
    ensures
        seq![r.0, r.1] == word_bytes(w),
{
    let high = (w >> 8u16) as u8;
    let low = w as u8;
    assert(high == w / 256 && low == w % 256) by (bit_vector)
        requires
            high == (w >> 8u16) as u8,
            low == w as u8,
    ;
    (high, low)
}

impl Assembler {
    /// The first pass: defines the labels and collects the instruction lines.
    fn first_pass(&mut self, lines: &Vec<Vec<char>>) -> (codes: Vec<(usize, Vec<char>)>)
        requires
            code_lines(seqs_of(lines@)).len() <= 32767,
        ensures
            numbered(codes@) == code_lines(seqs_of(lines@)),
            final(self)@ == label_table(old(self)@, seqs_of(lines@)),
    {
        let ghost all = seqs_of(lines@);
        let mut codes: Vec<(usize, Vec<char>)> = Vec::new();
        let mut address_counter: u16 = 0;
        let n = lines.len();
        for i in 0..n
            invariant
                n == lines@.len(),
                all == seqs_of(lines@),
                code_lines(all).len() <= 32767,
                numbered(codes@) == code_lines(all.take(i as int)),
                self@ == label_table(old(self)@, all.take(i as int)),
                address_counter == 2 * codes@.len(),
        {
            proof {
                assert(all.take(i + 1).drop_last() =~= all.take(i as int));
                assert(all.take(i + 1).last() == lines@[i as int]@);
                lemma_code_lines_grow(all, i + 1, n as int);
                assert(all.take(n as int) =~= all);
            }
            match classify_line(&lines[i]) {
                SourceLine::Blank => {},
                SourceLine::Label(label) => {
                    self.define_label(label, address_counter);
                },
                SourceLine::Code(code) => {
                    let ghost before = numbered(codes@);
                    codes.push((i + 1, code));
                    assert(numbered(codes@) =~= before.push(((i + 1) as usize, code@)));
                    address_counter += 2;
                },
            }
        }
        assert(all.take(n as int) =~= all);
        codes
    }

    /// The two bytes of one instruction line.
    fn encode_code(&self, line: usize, code: &Vec<char>) -> (r: Result<(u8, u8), AssemblerError>)
        requires
            tokens(code@).len() > 0,
        ensures
            r matches Ok((h, l)) ==> parsed_line(self@, line, tokens(code@)) matches Ok(i)
                && seq![h, l] == word_bytes(i.encoded()),
            r matches Err(e) ==> parsed_line(self@, line, tokens(code@)) == Err::<
                Instruction,
                AssemblerFault,
            >(e@),
    {
        let toks = split_tokens(code);
        let instruction = self.parse_line(line, &toks)?;
        Ok(split_word(instruction.encode()))
    }

    /// The second pass: the bytes of the instruction lines, or the error of
    /// the first line that cannot be read.
    fn second_pass(&self, codes: &Vec<(usize, Vec<char>)>) -> (r: Result<Vec<u8>, AssemblerError>)
        requires
            all_have_tokens(numbered(codes@)),
        ensures
            program_outcome(r) == encoded_lines(self@, numbered(codes@)),
    {
        let ghost all = numbered(codes@);
        let mut binary_output: Vec<u8> = Vec::new();
        let n = codes.len();
        for j in 0..n
            invariant
                n == codes@.len(),
                all == numbered(codes@),
                all_have_tokens(all),
                encoded_lines(self@, all.take(j as int)) == Ok::<Seq<u8>, AssemblerFault>(
                    binary_output@,
                ),
        {
            assert(all[j as int] == (codes@[j as int].0, codes@[j as int].1@));
            assert(tokens(all[j as int].1).len() > 0);
            assert(all.take(j + 1).drop_last() =~= all.take(j as int));
            match self.encode_code(codes[j].0, &codes[j].1) {
                Err(e) => {
                    proof {
                        lemma_encoded_error_stays(self@, all, j + 1, n as int);
                        assert(all.take(n as int) =~= all);
                    }
                    return Err(e);
                },
                Ok((high, low)) => {
                    let ghost before = binary_output@;
                    binary_output.push(high);
                    binary_output.push(low);
                    assert(binary_output@ =~= before + seq![high, low]);
                },
            }
        }
        assert(all.take(n as int) =~= all);
        Ok(binary_output)
    }

    /// Assembles a source into program bytes, two per instruction line,
    /// high byte first; the labels it defines stay in the table.
    pub fn assemble(&mut self, input: &str) -> (r: Result<Vec<u8>, AssemblerError>)
        requires
            assemblable(input@),
        ensures
            final(self)@ == assembled(old(self)@, input@).0,
            program_outcome(r) == assembled(old(self)@, input@).1,
    {
        let chars = chars_of(input);
        let lines = split_lines(&chars);
        let codes = self.first_pass(&lines);
        self.second_pass(&codes)
    }

    /// Whether `assemble` reads `input` to the end (see `assemblable`): the
    /// test to make before assembling a source of unknown shape.
    pub fn can_assemble(input: &str) -> (b: bool)
        ensures
            b == assemblable(input@),
    {
        let chars = chars_of(input);
        let lines = split_lines(&chars);
        let ghost all = seqs_of(lines@);
        assert(all == lines_of(input@));
        let mut count: usize = 0;
        let n = lines.len();
        for i in 0..n
            invariant
                n == lines@.len(),
                all == seqs_of(lines@),
                count == code_lines(all.take(i as int)).len(),
                count <= 32767,
                all == lines_of(input@),
                all_have_tokens(code_lines(all.take(i as int))),
        {
            assert(all.take(i + 1).drop_last() =~= all.take(i as int));
            assert(all.take(i + 1).last() == lines@[i as int]@);
            let kind = classify_line(&lines[i]);
            let ghost prev = code_lines(all.take(i as int));
            match kind {
                SourceLine::Code(code) => {
                    assert(code_lines(all.take(i + 1)) == prev.push(((i + 1) as usize, code@)));
                    let toks = split_tokens(&code);
                    if toks.len() == 0 || count >= 32767 {
                        proof {
                            lemma_code_lines_grow(all, i + 1, n as int);
                            lemma_code_lines_prefix(all, i + 1, n as int);
                            assert(all.take(n as int) =~= all);
                            let whole = code_lines(all);
                            if toks.len() == 0 {
                                assert(whole[count as int] == code_lines(all.take(i + 1))[count as int]);
                                assert(tokens(whole[count as int].1).len() == 0);
                            } else {
                                assert(whole.len() > 32767);
                            }
                        }
                        return false;
                    }
                    count += 1;
                    let ghost next = code_lines(all.take(i + 1));
                    assert forall|k: int| 0 <= k < next.len() implies tokens(
                        #[trigger] next[k].1,
                    ).len() > 0 by {
                        if k < prev.len() {
                            assert(next[k] == prev[k]);
                        } else {
                            assert(next[k].1 == code@);
                        }
                    }
                    assert(all_have_tokens(next));
                },
                _ => {
                    assert(code_lines(all.take(i + 1)) == prev);
                },
            }
        }
        assert(all.take(n as int) =~= all);
        true
    }
}

proof fn lemma_code_lines_prefix(lines: Seq<Seq<char>>, i: int, j: int)
    requires
        0 <= i <= j <= lines.len(),
    ensures
        code_lines(lines.take(j)).take(code_lines(lines.take(i)).len() as int) == code_lines(
            lines.take(i),
        ),
    decreases j - i,
{
    if i < j {
        lemma_code_lines_prefix(lines, i, j - 1);
        lemma_code_lines_grow(lines, i, j - 1);
        assert(lines.take(j).drop_last() =~= lines.take(j - 1));
        let a = code_lines(lines.take(i));
        let b = code_lines(lines.take(j - 1));
        let c = code_lines(lines.take(j));
        assert(c.take(a.len() as int) =~= b.take(a.len() as int));
    }
}

// ---------------------------------------------------------------------------
// Laws

/// Every instruction the assembler reads names registers r0-r7 only, and its
/// register field fits in three bits.
pub proof fn lemma_parsed_line_in_range(symbols: Map<Seq<char>, u16>, line: usize, toks: Seq<Seq<char>>)
    requires
        parsed_line(symbols, line, toks) is Ok,
    ensures
        registers_in_range(parsed_line(symbols, line, toks)->Ok_0),
        parsed_line(symbols, line, toks)->Ok_0.fits_encoding(),
{
    lemma_line_reading_in_range(symbols, line, toks, lowercased(toks));
}

/// `lemma_parsed_line_in_range`, for any lowercase forms.
pub proof fn lemma_line_reading_in_range(
    symbols: Map<Seq<char>, u16>,
    line: usize,
    toks: Seq<Seq<char>>,
    lows: Seq<Seq<char>>,
)
    requires
        line_reading(symbols, line, toks, lows) is Ok,
    ensures
        registers_in_range(line_reading(symbols, line, toks, lows)->Ok_0),
        line_reading(symbols, line, toks, lows)->Ok_0.fits_encoding(),
{
    reveal(line_reading);
    let m = mnemonic(lows[0])->Some_0;
    let (a, b) = parsed_operands(symbols, m, line, toks, lows)->Ok_0;
    let k = operand_kinds(m);
    if k.0 == Some(OperandKind::Register) || (k.0 == Some(OperandKind::RegisterOrImmediate)
        && names_register(lows[1])) {
        assert(a < 8);
    }
    if k.1 == Some(OperandKind::Register) || (k.1 == Some(OperandKind::RegisterOrImmediate)
        && names_register(lows[2])) || (k.1 == Some(OperandKind::Memory) && is_bracketed(
        toks[2],
    )) {
        assert(b < 8);
    }
}

/// Labels are kept as written: a label defined on line `i` (and on no later
/// line) is in the table after the first pass under its name exactly as it
/// stands in the source, case included, at twice the number of instruction
/// lines before line `i`.
pub proof fn lemma_label_address(
    symbols: Map<Seq<char>, u16>,
    lines: Seq<Seq<char>>,
    i: int,
    l: Seq<char>,
)
    requires
        0 <= i < lines.len(),
        classify(lines[i]) == LineKind::Label(l),
        forall|j: int| i < j < lines.len() ==> classify(#[trigger] lines[j]) != LineKind::Label(l),
    ensures
        label_table(symbols, lines).contains_key(l),
        label_table(symbols, lines)[l] == (2 * code_lines(lines.take(i)).len()) as u16,
    decreases lines.len(),
{
    if i == lines.len() - 1 {
        assert(lines.drop_last() =~= lines.take(i));
    } else {
        let rest = lines.drop_last();
        assert forall|j: int| i < j < rest.len() implies classify(#[trigger] rest[j])
            != LineKind::Label(l) by {
            assert(rest[j] == lines[j]);
        }
        lemma_label_address(symbols, rest, i, l);
        assert(rest.take(i) =~= lines.take(i));
        assert(classify(lines[lines.len() - 1]) != LineKind::Label(l));
    }
}

/// Mnemonics are read without regard to case: two lines whose first tokens
/// have the same lowercase form and whose other tokens are the same read
/// alike.
pub proof fn lemma_mnemonic_case_insensitive(
    symbols: Map<Seq<char>, u16>,
    line: usize,
    toks1: Seq<Seq<char>>,
    toks2: Seq<Seq<char>>,
)
    requires
        toks1.len() == toks2.len(),
        toks1.len() > 0,
        lowercase(toks1[0]) == lowercase(toks2[0]),
        forall|k: int| 1 <= k < toks1.len() ==> toks1[k] == toks2[k],
    ensures
        parsed_line(symbols, line, toks1) == parsed_line(symbols, line, toks2),
{
    reveal(line_reading);
    assert(lowercased(toks1) =~= lowercased(toks2)) by {
        assert forall|k: int| 0 <= k < toks1.len() implies lowercased(toks1)[k] == lowercased(
            toks2,
        )[k] by {
            if k > 0 {
                assert(toks1[k] == toks2[k]);
            }
        }
    }
    if toks1.len() > 1 {
        assert(toks1[1] == toks2[1]);
    }
    if toks1.len() > 2 {
        assert(toks1[2] == toks2[2]);
    }
}

/// A branch target resolves through the label table by the token exactly as
/// written, case included: when the table holds the token, the operand is
/// the label's address (its low byte), whatever the token's lowercase form.
pub proof fn lemma_target_resolves_as_written(
    symbols: Map<Seq<char>, u16>,
    s: Seq<char>,
    low: Seq<char>,
    line: usize,
)
    requires
        symbols.contains_key(s),
    ensures
        parsed_operand(symbols, OperandKind::Target, s, low, line) == Ok::<u8, AssemblerFault>(
            symbols[s] as u8,
        ),
{
}

/// A branch to a label: a line whose mnemonic (in lowercase) is `jmp`,
/// `brz`, `brn` or `brc` and whose target token, as written, is a label of
/// the table reads as that branch to the label's address (its low byte),
/// whatever the lowercase forms of the operand.
pub proof fn lemma_branch_to_label(
    symbols: Map<Seq<char>, u16>,
    line: usize,
    toks: Seq<Seq<char>>,
    lows: Seq<Seq<char>>,
)
    requires
        toks.len() >= 2,
        lows.len() == toks.len(),
        symbols.contains_key(toks[1]),
    ensures
        lows[0] == seq!['j', 'm', 'p'] ==> line_reading(symbols, line, toks, lows) == Ok::<
            Instruction,
            AssemblerFault,
        >(Instruction::Jmp { addr: symbols[toks[1]] as u8 }),
        lows[0] == seq!['b', 'r', 'z'] ==> line_reading(symbols, line, toks, lows) == Ok::<
            Instruction,
            AssemblerFault,
        >(Instruction::Brz { addr: symbols[toks[1]] as u8 }),
        lows[0] == seq!['b', 'r', 'n'] ==> line_reading(symbols, line, toks, lows) == Ok::<
            Instruction,
            AssemblerFault,
        >(Instruction::Brn { addr: symbols[toks[1]] as u8 }),
        lows[0] == seq!['b', 'r', 'c'] ==> line_reading(symbols, line, toks, lows) == Ok::<
            Instruction,
            AssemblerFault,
        >(Instruction::Brc { addr: symbols[toks[1]] as u8 }),
{
    reveal(line_reading);
}

/// `lemma_branch_to_label` for a line as the assembler reads it: the
/// mnemonic is matched in lowercase, the target token as written.
pub proof fn lemma_branch_line_to_label(
    symbols: Map<Seq<char>, u16>,
    line: usize,
    toks: Seq<Seq<char>>,
)
    requires
        toks.len() >= 2,
        symbols.contains_key(toks[1]),
    ensures
        lowercase(toks[0]) == seq!['j', 'm', 'p'] ==> parsed_line(symbols, line, toks) == Ok::<
            Instruction,
            AssemblerFault,
        >(Instruction::Jmp { addr: symbols[toks[1]] as u8 }),
        lowercase(toks[0]) == seq!['b', 'r', 'z'] ==> parsed_line(symbols, line, toks) == Ok::<
            Instruction,
            AssemblerFault,
        >(Instruction::Brz { addr: symbols[toks[1]] as u8 }),
        lowercase(toks[0]) == seq!['b', 'r', 'n'] ==> parsed_line(symbols, line, toks) == Ok::<
            Instruction,
            AssemblerFault,
        >(Instruction::Brn { addr: symbols[toks[1]] as u8 }),
        lowercase(toks[0]) == seq!['b', 'r', 'c'] ==> parsed_line(symbols, line, toks) == Ok::<
            Instruction,
            AssemblerFault,
        >(Instruction::Brc { addr: symbols[toks[1]] as u8 }),
{
    lemma_branch_to_label(symbols, line, toks, lowercased(toks));
}

/// The word of instruction `k` of a program: bytes `2k` and `2k + 1`.
pub open spec fn word_of(bytes: Seq<u8>, k: int) -> u16 {
    (bytes[2 * k] as int * 256 + bytes[2 * k + 1] as int) as u16
}

/// The bytes of a list of instruction lines decode line by line to the
/// instructions read from them.
pub proof fn lemma_encoded_lines_decode(symbols: Map<Seq<char>, u16>, codes: Seq<(usize, Seq<char>)>)
    requires
        encoded_lines(symbols, codes) is Ok,
    ensures
        encoded_lines(symbols, codes)->Ok_0.len() == 2 * codes.len(),
        forall|k: int|
            #![trigger codes[k]]
            0 <= k < codes.len() ==> {
                let bytes = encoded_lines(symbols, codes)->Ok_0;
                &&& executable(word_of(bytes, k))
                &&& parsed_line(symbols, codes[k].0, tokens(codes[k].1)) matches Ok(i)
                    && Instruction::decoded(word_of(bytes, k)) == Ok::<Instruction, DecodeError>(i)
            },
    decreases codes.len(),
{
    if codes.len() > 0 {
        let prev = codes.drop_last();
        lemma_encoded_lines_decode(symbols, prev);
        let before = encoded_lines(symbols, prev)->Ok_0;
        let last = codes.last();
        let i = parsed_line(symbols, last.0, tokens(last.1))->Ok_0;
        lemma_parsed_line_in_range(symbols, last.0, tokens(last.1));
        lemma_decode_encode(i);
        let w = i.encoded();
        let bytes = encoded_lines(symbols, codes)->Ok_0;
        assert(bytes == before + word_bytes(w));
        assert(word_of(bytes, codes.len() - 1) == w);
        assert forall|k: int| #![trigger codes[k]] 0 <= k < codes.len() implies {
            &&& executable(word_of(bytes, k))
            &&& parsed_line(symbols, codes[k].0, tokens(codes[k].1)) matches Ok(j)
                && Instruction::decoded(word_of(bytes, k)) == Ok::<Instruction, DecodeError>(j)
        } by {
            if k < codes.len() - 1 {
                assert(codes[k] == prev[k]);
                assert(word_of(bytes, k) == word_of(before, k));
            }
        }
    }
}

/// The CPU runs what the assembler wrote: an assembled program holds two
/// bytes per instruction line, and the word of each line decodes, naming
/// registers r0-r7 only, to the instruction read from that line.
pub proof fn lemma_assembled_program_decodes(symbols: Map<Seq<char>, u16>, input: Seq<char>)
    requires
        assembled(symbols, input).1 is Ok,
    ensures
        ({
            let table = assembled(symbols, input).0;
            let codes = code_lines(lines_of(input));
            let bytes = assembled(symbols, input).1->Ok_0;
            &&& bytes.len() == 2 * codes.len()
            &&& forall|k: int|
                #![trigger codes[k]]
                0 <= k < codes.len() ==> {
                    &&& executable(word_of(bytes, k))
                    &&& parsed_line(table, codes[k].0, tokens(codes[k].1)) matches Ok(i)
                        && Instruction::decoded(word_of(bytes, k)) == Ok::<Instruction, DecodeError>(i)
                }
        }),
{
    lemma_encoded_lines_decode(assembled(symbols, input).0, code_lines(lines_of(input)));
}

/// Loaded at the start of memory, a program is fetched word by word: with
/// `pc` at `2k`, the CPU reads the word of instruction `k`.
pub proof fn lemma_loaded_program_fetches(m: Machine, bytes: Seq<u8>, k: int)
    requires
        m.memory.len() == 256,
        bytes.len() <= 256,
        m.memory.take(bytes.len() as int) == bytes,
        0 <= k,
        2 * k + 1 < bytes.len(),
        m.pc == 2 * k,
    ensures
        word_at_pc(m) == word_of(bytes, k),
{
    assert(m.memory[2 * k] == m.memory.take(bytes.len() as int)[2 * k]);
    assert(m.memory[2 * k + 1] == m.memory.take(bytes.len() as int)[2 * k + 1]);
}

} // verus!
