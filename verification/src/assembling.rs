//! The pass driver, and the system that runs an assembled program.

use std::collections::HashMap;
use vstd::prelude::*;
use vstd::slice::slice_subrange;
use vstd::std_specs::hash::group_hash_axioms;
use crate::subleq::{addr_of, address, subtract, word_of, wrap_addr, State, SubLeq, SUBLEQ_RAM_LEN};
use crate::registers::{Registers, INITIAL_OFFSET};
use crate::mnemonic::Mnemonic;
use crate::error::{AsmError, Fault};
use crate::text::{
    chars_of, copy_text, included, included_files, parse_word, read_source, rows, strings, text_is,
    texts,
};
use crate::assembler::{next_line, operands, with_constants, with_registers, Assembler};
use crate::expansion::law_size_matches_code;
use crate::passes::{
    assembly, declare_step, declared, directives, draft_of, encode_step, encoded,
    kind_of, lemma_passed_fails, locate_step, located, passed, program_of, Build, Draft, LineKind,
    Program, Survey,
};

verus! {

broadcast use group_hash_axioms;

/// Whether a code point is a Unicode scalar value.
pub open spec fn is_scalar(i: u32) -> bool {
    i <= 0xD7FF || (0xE000 <= i <= 0x10FFFF)
}

/// `char::from_u32` of the standard library: the character with the given
/// code point if the code point is a Unicode scalar value, that is at most
/// 0x10FFFF and no surrogate, and nothing otherwise.
pub assume_specification[ char::from_u32 ](i: u32) -> (r: Option<char>)
    ensures
        r == if is_scalar(i) {
            Some(i as char)
        } else {
            None::<char>
        },
;

/// What one step of the system sends to the outside.
#[derive(Clone, Copy, PartialEq, Eq, Debug)]
pub enum Output {
    /// Nothing.
    Silent,
    /// The program has stopped.
    Halt,
    /// A number, to be printed in decimal.
    Number(i16),
    /// A character, to be printed.
    Character(char),
}

/// The word that names the destination of the instruction about to run.
pub open spec fn destination(s: State) -> i16 {
    s.ram[wrap_addr(s.pc + 1)]
}

/// The value that a program means to send when it subtracts it from a port
/// that holds zero: the negated content of the destination after the step.
pub open spec fn sent(s: State) -> i16 {
    word_of(-s.step().ram[addr_of(destination(s))])
}

/// The character that a word names: the one with that code point, or the
/// replacement character where there is none.
pub open spec fn glyph(v: i16) -> char {
    if v >= 0 {
        v as char
    } else {
        '\u{FFFD}'
    }
}

/// What one step sends out, told by the destination of its instruction.
pub open spec fn output_of(s: State) -> Output {
    let b = destination(s);
    if b == Registers::BRK {
        Output::Halt
    } else if b == Registers::IOUT {
        Output::Number(sent(s))
    } else if b == Registers::COUT {
        Output::Character(glyph(sent(s)))
    } else {
        Output::Silent
    }
}

/// The machine after one step of the system: the instruction has run, and a
/// port that was written is zero again.
pub open spec fn served(s: State) -> State {
    let b = destination(s);
    if b == Registers::IOUT || b == Registers::COUT {
        State { ram: s.step().ram.update(addr_of(b), 0), pc: s.step().pc }
    } else {
        s.step()
    }
}

/// A system as mathematics.
pub struct System {
    /// The machine.
    pub machine: State,
    /// Whether the program has stopped.
    pub halted: bool,
    /// Whether the system was asked for tracing.
    pub debug: bool,
    /// The number of data directives of the program.
    pub vars: int,
    /// The address behind the program's last instruction.
    pub end: int,
    /// Which instruction starts at which address.
    pub listing: Map<u16, Mnemonic>,
}

impl System {
    /// A system that has just been loaded with a program.
    pub open spec fn loaded(p: Program, debug: bool) -> System {
        System {
            machine: State { ram: p.ram, pc: p.entry },
            halted: false,
            debug,
            vars: p.vars,
            end: p.end,
            listing: p.listing,
        }
    }

    /// The system after one step; a halted system stays as it is.
    pub open spec fn next(self) -> System {
        if self.halted {
            self
        } else {
            System {
                machine: served(self.machine),
                halted: destination(self.machine) == Registers::BRK,
                ..self
            }
        }
    }

    /// What the step from this system sends out.
    pub open spec fn output(self) -> Output {
        if self.halted {
            Output::Halt
        } else {
            output_of(self.machine)
        }
    }

    /// The end of the region that a trace shows as registers and variables.
    pub open spec fn cells_end(self) -> int {
        if Registers::DATA_OFFSET + self.vars <= 65536 {
            Registers::DATA_OFFSET + self.vars
        } else {
            65536
        }
    }
}

/// What a trace shows of a system that is about to step.
pub struct Trace {
    /// The instruction of the source that starts at the program counter.
    pub mnemonic: Option<Mnemonic>,
    /// The program counter.
    pub pc: u16,
    /// The registers and the variables.
    pub cells: Vec<i16>,
    /// The three words at the program counter.
    pub triple: (i16, i16, i16),
    /// The first words of the memory.
    pub head: Vec<i16>,
}

/// An assembled program together with the machine that runs it.
pub struct SubLeqSystem {
    subleq: Box<SubLeq>,
    var_offset: usize,
    fin_offset: usize,
    brk: bool,
    debug: bool,
    instructions: HashMap<u16, Mnemonic>,
}

impl View for SubLeqSystem {
    type V = System;

    closed spec fn view(&self) -> System {
        System {
            machine: self.subleq@,
            halted: self.brk,
            debug: self.debug,
            vars: self.var_offset as int,
            end: self.fin_offset as int,
            listing: self.instructions@,
        }
    }
}

/// A copy of a range of the memory.
fn copy_words(ram: &[i16; SUBLEQ_RAM_LEN], from: usize, to: usize) -> (out: Vec<i16>)
    requires
        from <= to <= SUBLEQ_RAM_LEN,
    ensures
        out@ == ram@.subrange(from as int, to as int),
{
    let mut out: Vec<i16> = Vec::new();
    let mut i: usize = from;
    while i < to
        invariant
            from <= i <= to <= SUBLEQ_RAM_LEN,
            out@ == ram@.subrange(from as int, i as int),
        decreases to - i,
    {
        out.push(ram[i]);
        assert(ram@.subrange(from as int, i + 1) =~= ram@.subrange(from as int, i as int).push(
            ram@[i as int],
        ));
        i += 1;
    }
    out
}

impl SubLeqSystem {
    /// Runs one instruction and serves the ports. A write to `BRK` halts the
    /// system, a write to `IOUT` or `COUT` sends a value and clears the port.
    /// A halted system does nothing.
    pub fn step(&mut self) -> (out: Output)
        ensures
            out == old(self)@.output(),
            final(self)@ == old(self)@.next(),
            final(self)@.machine.wf(),
    {
        if self.brk {
            return Output::Halt;
        }
        let out_addr = self.subleq.ram[self.subleq.pc.wrapping_add(1) as usize];
        self.subleq.clock();
        let at = address(out_addr) as usize;
        let out_data = subtract(0, self.subleq.ram[at]);
        if out_addr == Registers::BRK {
            self.brk = true;
            Output::Halt
        } else if out_addr == Registers::IOUT {
            self.subleq.ram[at] = 0;
            Output::Number(out_data)
        } else if out_addr == Registers::COUT {
            self.subleq.ram[at] = 0;
            let c = if out_data >= 0 {
                match char::from_u32(out_data as u32) {
                    Some(c) => c,
                    None => '\u{FFFD}',
                }
            } else {
                '\u{FFFD}'
            };
            Output::Character(c)
        } else {
            Output::Silent
        }
    }

    /// What a trace shows before a step: the instruction and the value of
    /// the program counter, the registers and variables, the triple at the
    /// program counter and the first `len` words of the memory.
    pub fn debug(&self, len: usize) -> (t: Trace)
        requires
            len <= SUBLEQ_RAM_LEN,
        ensures
            t.pc == self@.machine.pc,
            t.mnemonic == if self@.listing.contains_key(t.pc) {
                Some(self@.listing[t.pc])
            } else {
                None::<Mnemonic>
            },
            t.cells@ == self@.machine.ram.subrange(INITIAL_OFFSET as int, self@.cells_end()),
            t.triple == (
                self@.machine.ram[self@.machine.pc],
                self@.machine.ram[wrap_addr(self@.machine.pc + 1)],
                self@.machine.ram[wrap_addr(self@.machine.pc + 2)],
            ),
            t.head@ == self@.machine.ram.subrange(0, len as int),
    {
        let pc = self.subleq.pc;
        let o: usize = if self.var_offset > SUBLEQ_RAM_LEN - 0x111 {
            SUBLEQ_RAM_LEN
        } else {
            0x111 + self.var_offset
        };
        let mnemonic = match self.instructions.get(&pc) {
            Some(m) => Some(*m),
            None => None,
        };
        Trace {
            mnemonic,
            pc,
            cells: copy_words(&self.subleq.ram, INITIAL_OFFSET as usize, o),
            triple: (
                self.subleq.ram[pc as usize],
                self.subleq.ram[pc.wrapping_add(1) as usize],
                self.subleq.ram[pc.wrapping_add(2) as usize],
            ),
            head: copy_words(&self.subleq.ram, 0, len),
        }
    }

    /// Whether the program has stopped.
    pub fn halted(&self) -> (b: bool)
        ensures
            b == self@.halted,
    {
        self.brk
    }

    /// Whether the system was asked for tracing.
    pub fn debugging(&self) -> (b: bool)
        ensures
            b == self@.debug,
    {
        self.debug
    }

    /// The program counter.
    pub fn pc(&self) -> (pc: u16)
        ensures
            pc == self@.machine.pc,
    {
        self.subleq.pc
    }

    /// The word at an address.
    pub fn word(&self, addr: u16) -> (w: i16)
        ensures
            w == self@.machine.ram[addr as int],
    {
        self.subleq.ram[addr as usize]
    }

    /// The number of data directives of the program.
    pub fn var_offset(&self) -> (n: usize)
        ensures
            n == self@.vars,
    {
        self.var_offset
    }

    /// The address behind the program's last instruction.
    pub fn fin_offset(&self) -> (n: usize)
        ensures
            n == self@.end,
    {
        self.fin_offset
    }
}

/// The kind of a line of tokens.
pub fn classify(toks: &Vec<Vec<char>>) -> (k: LineKind)
    ensures
        k == kind_of(texts(toks@)),
{
    if toks.len() == 0 || toks[0].len() == 0 {
        LineKind::Blank
    } else if toks[0][0] == '.' {
        LineKind::Directive
    } else if toks[0][0] == '#' {
        LineKind::Label
    } else if toks[0][0] == '%' {
        LineKind::Include
    } else {
        LineKind::Instruction
    }
}

/// Names the registers in an assembler and sets the constant registers to
/// their values.
pub fn install_registers(unit: &mut Assembler)
    ensures
        final(unit).vars@ == with_registers(old(unit).vars@),
        final(unit).data@ == with_constants(old(unit).data@),
        final(unit).line == old(unit).line,
        final(unit).offset == old(unit).offset,
{
    unit.vars.bind(&chars_of("BRK"), Registers::BRK);
    unit.vars.bind(&chars_of("IOUT"), Registers::IOUT);
    unit.vars.bind(&chars_of("COUT"), Registers::COUT);
    unit.vars.bind(&chars_of("P1"), Registers::P1);
    unit.vars.bind(&chars_of("N1"), Registers::N1);
    unit.vars.bind(&chars_of("O"), Registers::O);
    unit.vars.bind(&chars_of("J"), Registers::J);
    unit.vars.bind(&chars_of("K"), Registers::K);
    unit.vars.bind(&chars_of("A"), Registers::A);
    unit.vars.bind(&chars_of("B"), Registers::B);
    unit.vars.bind(&chars_of("S"), Registers::S);
    unit.vars.bind(&chars_of("R"), Registers::R);
    unit.vars.bind(&chars_of("A1"), Registers::A1);
    unit.vars.bind(&chars_of("A2"), Registers::A2);
    unit.vars.bind(&chars_of("X"), Registers::X);
    unit.vars.bind(&chars_of("Y"), Registers::Y);
    unit.vars.bind(&chars_of("F"), Registers::F);
    unit.vars.bind(&chars_of("DATA_OFFSET"), Registers::DATA_OFFSET);
    unit.data[Registers::P1 as usize] = 1;
    unit.data[Registers::N1 as usize] = -1;
    unit.data[Registers::O as usize] = i16::MIN;
    unit.data[Registers::J as usize] = 12;
    unit.data[Registers::K as usize] = 15;
}

/// The first pass on one line: a data directive takes the word at the write
/// position for a new variable. Moves on to the next line.
pub fn declare(unit: &mut Assembler, toks: &Vec<Vec<char>>) -> (r: Result<(), AsmError>)
    ensures
        final(unit).line == next_line(old(unit).line),
        match declared(draft_of(*old(unit)), texts(toks@), old(unit).line as int) {
            Ok(d) => r is Ok && draft_of(*final(unit)) == d,
            Err(f) => r is Err && r->Err_0@ == f,
        },
{
    let r = match classify(toks) {
        LineKind::Directive => {
            if !text_is(&toks[0], ".dat") {
                Err(AsmError::UndefinedDirective { line: unit.line })
            } else {
                let args = slice_subrange(toks.as_slice(), 1, toks.len());
                assert(texts(args@) =~= texts(toks@).skip(1));
                match unit.args_get(args, 1) {
                    Err(e) => Err(e),
                    Ok(value) => match parse_word(value) {
                        None => Err(
                            AsmError::InvalidInteger {
                                text: copy_text(value),
                                line: unit.line,
                                arg: 1,
                            },
                        ),
                        Some(v) => {
                            let o = address_word(unit.offset);
                            if unit.vars.define(&args[0], o) {
                                unit.write(v);
                                Ok(())
                            } else {
                                Err(AsmError::RedefinedVariable { line: unit.line })
                            }
                        },
                    },
                }
            }
        },
        _ => Ok(()),
    };
    unit.advance();
    r
}

/// The word that names an address.
pub fn address_word(a: u16) -> (w: i16)
    ensures
        w == word_of(a as int),
        addr_of(w) == a,
{
    if a >= 32768 {
        (a as i32 - 65536) as i16
    } else {
        a as i16
    }
}

/// The second pass on one line: a label binds its name to the running
/// address `at`, an instruction moves that address on by its size. Gives the
/// running address after the line, and moves on to the next line.
pub fn locate(unit: &mut Assembler, toks: &Vec<Vec<char>>, at: u16) -> (r: Result<u16, AsmError>)
    ensures
        final(unit).line == next_line(old(unit).line),
        final(unit).offset == old(unit).offset,
        final(unit).data == old(unit).data,
        match located(
            Survey { names: old(unit).vars@, at: at as int },
            texts(toks@),
            old(unit).line as int,
        ) {
            Ok(s) => r is Ok && final(unit).vars@ == s.names && r->Ok_0 == s.at,
            Err(f) => r is Err && r->Err_0@ == f,
        },
{
    match classify(toks) {
        LineKind::Label => match unit.assemble_label(&toks[0], at) {
            Ok(()) => Ok(at),
            Err(e) => Err(e),
        },
        LineKind::Instruction => {
            let line = unit.line;
            unit.advance();
            match Mnemonic::from_name(&toks[0]) {
                None => Err(AsmError::UndefinedInstruction { line }),
                Some(m) => {
                    let size: u16 = 3 * m.triples();
                    Ok(at.wrapping_add(size))
                },
            }
        },
        _ => {
            unit.advance();
            Ok(at)
        },
    }
}

/// The third pass on one line: an instruction is entered in the listing and
/// its code is written at the write position. Moves on to the next line.
pub fn encode(
    unit: &mut Assembler,
    listing: &mut HashMap<u16, Mnemonic>,
    toks: &Vec<Vec<char>>,
) -> (r: Result<(), AsmError>)
    ensures
        final(unit).line == next_line(old(unit).line),
        match encoded(
            Build { draft: draft_of(*old(unit)), listing: old(listing)@ },
            texts(toks@),
            old(unit).line as int,
        ) {
            Ok(b) => r is Ok && draft_of(*final(unit)) == b.draft && final(listing)@ == b.listing,
            Err(f) => r is Err && r->Err_0@ == f,
        },
{
    match classify(toks) {
        LineKind::Instruction => {
            let args = slice_subrange(toks.as_slice(), 1, toks.len());
            assert(texts(args@) =~= texts(toks@).skip(1));
            let at = unit.offset;
            let named = Mnemonic::from_name(&toks[0]);
            match unit.assemble_instruction(&toks[0], args) {
                Ok(()) => {
                    if let Some(m) = named {
                        proof {
                            let ops = operands(
                                old(unit).vars@,
                                texts(args@),
                                m.arity() as nat,
                                old(unit).line as int,
                            )->Ok_0;
                            reveal(Assembler::wrote);
                            law_size_matches_code(m, at as int, ops);
                        }
                        listing.insert(at, m);
                    }
                    Ok(())
                },
                Err(e) => Err(e),
            }
        },
        _ => {
            unit.advance();
            Ok(())
        },
    }
}

/// The first pass: lays out the data of every line. Gives the number of
/// data directives.
pub fn layout(unit: &mut Assembler, src: &Vec<Vec<Vec<char>>>) -> (r: Result<usize, AsmError>)
    ensures
        match passed(declare_step(), draft_of(*old(unit)), rows(src@), src.len() as int) {
            Ok(d) => r is Ok && draft_of(*final(unit)) == d && r->Ok_0 == directives(
                rows(src@),
                src.len() as int,
            ),
            Err(f) => r is Err && r->Err_0@ == f,
        },
{
    let ghost lines = rows(src@);
    let ghost first = draft_of(*unit);
    let n = src.len();
    let mut count: usize = 0;
    let mut i: usize = 0;
    while i < n
        invariant
            i <= n == src.len(),
            lines == rows(src@),
            count <= i,
            first == draft_of(*old(unit)),
            count == directives(lines, i as int),
            passed(declare_step(), first, lines, i as int) == Ok::<Draft, Fault>(draft_of(*unit)),
        decreases n - i,
    {
        unit.line = i + 1;
        assert(lines[i as int] == texts(src@[i as int]@));
        if let LineKind::Directive = classify(&src[i]) {
            count += 1;
        }
        if let Err(e) = declare(unit, &src[i]) {
            proof {
                lemma_passed_fails(declare_step(), first, lines, i + 1, n as int);
            }
            return Err(e);
        }
        i += 1;
    }
    Ok(count)
}

/// The second pass: binds every label to the address of the instruction
/// that follows it. Gives the address behind the last instruction.
pub fn survey(unit: &mut Assembler, src: &Vec<Vec<Vec<char>>>) -> (r: Result<u16, AsmError>)
    ensures
        final(unit).offset == old(unit).offset,
        final(unit).data == old(unit).data,
        match passed(
            locate_step(),
            Survey { names: old(unit).vars@, at: old(unit).offset as int },
            rows(src@),
            src.len() as int,
        ) {
            Ok(s) => r is Ok && final(unit).vars@ == s.names && r->Ok_0 == s.at,
            Err(f) => r is Err && r->Err_0@ == f,
        },
{
    let ghost lines = rows(src@);
    let ghost first = Survey { names: unit.vars@, at: unit.offset as int };
    let n = src.len();
    let mut o: u16 = unit.offset;
    let mut i: usize = 0;
    while i < n
        invariant
            i <= n == src.len(),
            lines == rows(src@),
            unit.offset == old(unit).offset,
            unit.data == old(unit).data,
            first == (Survey { names: old(unit).vars@, at: old(unit).offset as int }),
            passed(locate_step(), first, lines, i as int) == Ok::<Survey, Fault>(
                Survey { names: unit.vars@, at: o as int },
            ),
        decreases n - i,
    {
        unit.line = i + 1;
        assert(lines[i as int] == texts(src@[i as int]@));
        match locate(unit, &src[i], o) {
            Ok(next) => {
                o = next;
            },
            Err(e) => {
                proof {
                    lemma_passed_fails(locate_step(), first, lines, i + 1, n as int);
                }
                return Err(e);
            },
        }
        i += 1;
    }
    Ok(o)
}

/// The third pass: writes the code of every instruction. Gives the listing.
pub fn emit(unit: &mut Assembler, src: &Vec<Vec<Vec<char>>>) -> (r: Result<
    HashMap<u16, Mnemonic>,
    AsmError,
>)
    ensures
        match passed(
            encode_step(),
            Build { draft: draft_of(*old(unit)), listing: Map::empty() },
            rows(src@),
            src.len() as int,
        ) {
            Ok(b) => r is Ok && draft_of(*final(unit)) == b.draft && r->Ok_0@ == b.listing,
            Err(f) => r is Err && r->Err_0@ == f,
        },
{
    let ghost lines = rows(src@);
    let ghost first = Build { draft: draft_of(*unit), listing: Map::empty() };
    let n = src.len();
    let mut listing: HashMap<u16, Mnemonic> = HashMap::new();
    let mut i: usize = 0;
    while i < n
        invariant
            i <= n == src.len(),
            lines == rows(src@),
            first == (Build { draft: draft_of(*old(unit)), listing: Map::empty() }),
            passed(encode_step(), first, lines, i as int) == Ok::<Build, Fault>(
                Build { draft: draft_of(*unit), listing: listing@ },
            ),
        decreases n - i,
    {
        unit.line = i + 1;
        assert(lines[i as int] == texts(src@[i as int]@));
        if let Err(e) = encode(unit, &mut listing, &src[i]) {
            proof {
                lemma_passed_fails(encode_step(), first, lines, i + 1, n as int);
            }
            return Err(e);
        }
        i += 1;
    }
    Ok(listing)
}

/// Assembles a program from its lines of tokens.
pub fn build_from(src: &Vec<Vec<Vec<char>>>, debug: bool) -> (r: Result<SubLeqSystem, AsmError>)
    ensures
        match program_of(rows(src@)) {
            Ok(p) => r is Ok && r->Ok_0@ == System::loaded(p, debug) && r->Ok_0@.machine.wf(),
            Err(f) => r is Err && r->Err_0@ == f,
        },
{
    let mut unit = Assembler::new();
    install_registers(&mut unit);
    let vars_count = match layout(&mut unit, src) {
        Ok(count) => count,
        Err(e) => {
            return Err(e);
        },
    };
    let entry = unit.offset;
    if let Err(e) = survey(&mut unit, src) {
        return Err(e);
    }
    let instructions = match emit(&mut unit, src) {
        Ok(listing) => listing,
        Err(e) => {
            return Err(e);
        },
    };
    let mut machine = SubLeq::new();
    machine.ram = unit.data;
    machine.pc = entry;
    Ok(
        SubLeqSystem {
            subleq: Box::new(machine),
            var_offset: vars_count,
            fin_offset: unit.offset as usize,
            brk: false,
            debug,
            instructions,
        },
    )
}

/// Assembles a program from its text.
pub fn build(text: &Vec<char>, debug: bool) -> (r: Result<SubLeqSystem, AsmError>)
    ensures
        match assembly(text@) {
            Ok(p) => r is Ok && r->Ok_0@ == System::loaded(p, debug) && r->Ok_0@.machine.wf(),
            Err(f) => r is Err && r->Err_0@ == f,
        },
{
    let src = read_source(text);
    build_from(&src, debug)
}

/// The texts of the files that could be read.
pub open spec fn file_texts(v: Seq<Option<Vec<char>>>) -> Seq<Option<Seq<char>>> {
    Seq::new(
        v.len(),
        |i: int|
            match v[i] {
                Some(t) => Some(t@),
                None => None,
            },
    )
}

/// A program followed by the texts of the first `n` files that it names, in
/// that order; or the first of them that is missing, be it that it could not
/// be read or that no text was supplied for it.
pub open spec fn appended(
    program: Seq<char>,
    names: Seq<Seq<char>>,
    files: Seq<Option<Seq<char>>>,
    n: int,
) -> Result<Seq<char>, Fault>
    decreases n,
{
    if n <= 0 {
        Ok(program)
    } else {
        match appended(program, names, files, n - 1) {
            Err(f) => Err(f),
            Ok(t) => if n - 1 < files.len() && files[n - 1] is Some {
                Ok(t + files[n - 1]->Some_0)
            } else {
                Err(Fault::MissingInclude { name: names[n - 1] })
            },
        }
    }
}

/// Once a file is missing, the result stays that error.
pub proof fn lemma_appended_fails(
    program: Seq<char>,
    names: Seq<Seq<char>>,
    files: Seq<Option<Seq<char>>>,
    k: int,
    n: int,
)
    requires
        0 <= k <= n,
        appended(program, names, files, k) is Err,
    ensures
        appended(program, names, files, n) == appended(program, names, files, k),
    decreases n - k,
{
    if k < n {
        lemma_appended_fails(program, names, files, k, n - 1);
    }
}

/// Appends to a program the texts of the files that it names. `files` holds,
/// in the order of `included_files`, the text of each file, or nothing where
/// the file could not be read.
pub fn with_included(program: &Vec<char>, files: &Vec<Option<Vec<char>>>) -> (r: Result<
    Vec<char>,
    AsmError,
>)
    ensures
        match appended(
            program@,
            included(program@),
            file_texts(files@),
            included(program@).len() as int,
        ) {
            Ok(t) => r is Ok && r->Ok_0@ == t,
            Err(f) => r is Err && r->Err_0@ == f,
        },
{
    let names = included_files(program);
    let ghost wanted = included(program@);
    let ghost given = file_texts(files@);
    let mut out = copy_text(program);
    let mut k: usize = 0;
    while k < names.len()
        invariant
            k <= names.len(),
            strings(names@) == wanted,
            wanted == included(program@),
            given == file_texts(files@),
            appended(program@, wanted, given, k as int) == Ok::<Seq<char>, Fault>(out@),
        decreases names.len() - k,
    {
        assert(wanted[k as int] == names@[k as int]@);
        let missing = if k < files.len() {
            files[k].is_none()
        } else {
            true
        };
        if missing {
            proof {
                assert(k >= given.len() || given[k as int] is None);
                assert(appended(program@, wanted, given, k + 1) is Err);
                lemma_appended_fails(program@, wanted, given, k + 1, wanted.len() as int);
            }
            return Err(AsmError::MissingInclude { name: chars_of(names[k].as_str()) });
        }
        assert(given[k as int] == Some(files@[k as int]->Some_0@));
        if let Some(text) = &files[k] {
            let ghost before = out@;
            let mut i: usize = 0;
            while i < text.len()
                invariant
                    i <= text.len(),
                    out@ == before + text@.take(i as int),
                decreases text.len() - i,
            {
                out.push(text[i]);
                assert(text@.take(i + 1) =~= text@.take(i as int).push(text@[i as int]));
                assert(out@ =~= before + text@.take(i + 1));
                i += 1;
            }
            assert(text@.take(text.len() as int) =~= text@);
        }
        k += 1;
    }
    assert(strings(names@).len() == names.len());
    Ok(out)
}

/// Assembles a program from its source text, to which the files that it
/// names have been appended, into a system that is ready to run; or gives the
/// message of the first error.
pub fn assemble(program: String, debug: bool) -> (r: Result<SubLeqSystem, String>)
    ensures
        match assembly(program@) {
            Ok(p) => r is Ok && r->Ok_0@ == System::loaded(p, debug) && r->Ok_0@.machine.wf(),
            Err(f) => r is Err && r->Err_0@ == f.text(),
        },
{
    let text = chars_of(program.as_str());
    match build(&text, debug) {
        Ok(system) => Ok(system),
        Err(e) => Err(e.message()),
    }
}

} // verus!
