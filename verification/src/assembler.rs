//! The assembler's state and the code generators.

use vstd::prelude::*;
use crate::subleq::{word_of, wrap_addr, SUBLEQ_RAM_LEN};
use crate::registers::Registers;
use crate::symbols::SymbolTable;
use crate::mnemonic::Mnemonic;
use crate::error::{AsmError, Fault};
use crate::text::{copy_text, literal, parse_word, texts};
use crate::expansion::{
    expansion, lemma_stored_push, stored, target, Code, set_code, slt_code, clr_code, neg_code, add_code, sub_code, jmp_code, beq_code, blq_code, bgq_code, slq_code, inc_code, dec_code, jsr_code, cll_code, ret_code,
};

verus! {

/// Wrapping an address before adding to it changes nothing.
pub proof fn lemma_wrapped_sum(x: int, y: int)
    ensures
        word_of(wrap_addr(x) + y) == word_of(x + y),
        wrap_addr(wrap_addr(x) + y) == wrap_addr(x + y),
{
    assert((x % 65536 + y) % 65536 == (x + y) % 65536) by (nonlinear_arith);
}

/// The word that stands for an integer.
fn wrap_word(x: i32) -> (w: i16)
    requires
        -200000 <= x <= 200000,
    ensures
        w == word_of(x as int),
{
    let r: u32 = ((x + 262144) as u32) % 65536;
    if r >= 32768 {
        (r as i32 - 65536) as i16
    } else {
        r as i16
    }
}

/// The operand that a token names: the address of a defined name, else the
/// value of an integer literal.
pub open spec fn operand(names: Map<Seq<char>, i16>, tok: Seq<char>) -> Option<i16> {
    if names.contains_key(tok) {
        Some(names[tok])
    } else {
        literal(tok)
    }
}

/// Operand `i` of a line, or what is wrong with it.
pub open spec fn resolved(names: Map<Seq<char>, i16>, args: Seq<Seq<char>>, i: int, line: int)
    -> Result<i16, Fault> {
    if i >= args.len() {
        Err(Fault::MissingArgument { line, arg: i })
    } else {
        match operand(names, args[i]) {
            Some(w) => Ok(w),
            None => Err(Fault::Unresolved { text: args[i], line, arg: i }),
        }
    }
}

/// The first `n` operands of a line, or what is wrong with the first one
/// that cannot be resolved.
pub open spec fn operands(names: Map<Seq<char>, i16>, args: Seq<Seq<char>>, n: nat, line: int)
    -> Result<Seq<i16>, Fault>
    decreases n,
{
    if n == 0 {
        Ok(Seq::empty())
    } else {
        match operands(names, args, (n - 1) as nat, line) {
            Err(f) => Err(f),
            Ok(ws) => match resolved(names, args, n - 1, line) {
                Err(f) => Err(f),
                Ok(w) => Ok(ws.push(w)),
            },
        }
    }
}

/// A name table with the registers added, and the address where variables
/// start.
pub open spec fn with_registers(names: Map<Seq<char>, i16>) -> Map<Seq<char>, i16> {
    names.insert("BRK"@, Registers::BRK).insert("IOUT"@, Registers::IOUT).insert(
        "COUT"@,
        Registers::COUT,
    ).insert("P1"@, Registers::P1).insert("N1"@, Registers::N1).insert("O"@, Registers::O).insert(
        "J"@,
        Registers::J,
    ).insert("K"@, Registers::K).insert("A"@, Registers::A).insert("B"@, Registers::B).insert(
        "S"@,
        Registers::S,
    ).insert("R"@, Registers::R).insert("A1"@, Registers::A1).insert("A2"@, Registers::A2).insert(
        "X"@,
        Registers::X,
    ).insert("Y"@, Registers::Y).insert("F"@, Registers::F).insert(
        "DATA_OFFSET"@,
        Registers::DATA_OFFSET,
    )
}

/// A memory with the constant registers set to their values.
pub open spec fn with_constants(ram: Seq<i16>) -> Seq<i16> {
    ram.update(Registers::P1 as int, 1i16).update(Registers::N1 as int, -1i16).update(
        Registers::O as int,
        i16::MIN,
    ).update(Registers::J as int, 12i16).update(Registers::K as int, 15i16)
}

/// The names that exist before a program defines any: the registers, and
/// the address where variables start.
pub open spec fn register_names() -> Map<Seq<char>, i16> {
    with_registers(Map::empty())
}

/// A memory of zeros.
pub open spec fn zero_image() -> Seq<i16> {
    Seq::new(65536, |i: int| 0i16)
}

/// The memory before a program is assembled into it: zero but for the
/// constant registers.
pub open spec fn blank_image() -> Seq<i16> {
    with_constants(zero_image())
}

/// The number of the line after a line; the count stops at the greatest
/// number that the machine can hold.
pub open spec fn next_line(line: usize) -> usize {
    if line < usize::MAX {
        (line + 1) as usize
    } else {
        line
    }
}

/// The name that a label token defines: the token without its mark.
pub open spec fn label_name(tok: Seq<char>) -> Seq<char> {
    if tok.len() > 0 {
        tok.skip(1)
    } else {
        tok
    }
}

/// The memory image under construction, the write position, the names
/// defined so far and the number of the line at hand.
pub struct Assembler {
    pub line: usize,
    pub offset: u16,
    pub data: [i16; SUBLEQ_RAM_LEN],
    pub vars: SymbolTable,
}

impl Assembler {
    /// Whether `self` differs from `before` by exactly the words of `code`,
    /// written at the write position of `before`.
    #[verifier::opaque]
    pub open spec fn wrote(self, before: Assembler, code: Code) -> bool {
        &&& code.base == before.offset
        &&& self.data@ == stored(before.data@, before.offset as int, code.words)
        &&& self.offset == wrap_addr(before.offset + code.words.len())
        &&& self.line == before.line
        &&& self.vars == before.vars
    }

    /// What a code generator for `m` leaves behind: the instruction's code
    /// at the write position, or the first operand error and no change.
    pub open spec fn assembled(
        self,
        before: Assembler,
        m: Mnemonic,
        args: Seq<Seq<char>>,
        r: Result<(), AsmError>,
    ) -> bool {
        match operands(before.vars@, args, m.arity() as nat, before.line as int) {
            Ok(ops) => r is Ok && self.wrote(before, expansion(m, before.offset as int, ops)),
            Err(f) => r is Err && r->Err_0@ == f && self == before,
        }
    }

    /// Nothing written yet.
    pub proof fn lemma_wrote_nothing(self)
        ensures
            self.wrote(self, Code::at(self.offset as int)),
    {
        reveal(Assembler::wrote);
    }

    /// An assembler at the start: no names, a memory of zeros, the first
    /// line, and the write position at the first word above the register
    /// block.
    pub fn new() -> (a: Self)
        ensures
            a.line == 1,
            a.offset == Registers::DATA_OFFSET,
            a.data@ == zero_image(),
            a.vars@ == Map::<Seq<char>, i16>::empty(),
    {
        let data = [0i16; SUBLEQ_RAM_LEN];
        assert(data@ =~= zero_image());
        Assembler { line: 1, offset: Registers::DATA_OFFSET as u16, data, vars: SymbolTable::new() }
    }

    /// The assembler with another line number.
    pub open spec fn on_line(self, line: usize) -> Assembler {
        Assembler { line, ..self }
    }

    /// Moves on to the next line.
    pub fn advance(&mut self)
        ensures
            *final(self) == old(self).on_line(next_line(old(self).line)),
    {
        if self.line < usize::MAX {
            self.line += 1;
        }
    }

    /// Binds the name of a label token to a code address, unless the name is
    /// already defined, and moves on to the next line. An error carries the
    /// number of the label's line.
    pub fn assemble_label(&mut self, label: &Vec<char>, offset: u16) -> (r: Result<(), AsmError>)
        ensures
            final(self).line == next_line(old(self).line),
            final(self).offset == old(self).offset,
            final(self).data == old(self).data,
            old(self).vars@.contains_key(label_name(label@)) ==> r is Err && r->Err_0@ == (
            Fault::RedefinedLabel { line: old(self).line as int }) && final(self).vars@ == old(
                self,
            ).vars@,
            !old(self).vars@.contains_key(label_name(label@)) ==> r is Ok && final(self).vars@
                == old(self).vars@.insert(label_name(label@), word_of(offset as int)),
    {
        let line = self.line;
        self.advance();
        let mut name: Vec<char> = Vec::new();
        let mut i: usize = 1;
        while i < label.len()
            invariant
                1 <= i,
                label.len() > 0 ==> i <= label.len() && name@ == label@.subrange(1, i as int),
                label.len() == 0 ==> name@ == label@,
            decreases label.len() - i,
        {
            name.push(label[i]);
            assert(label@.subrange(1, i + 1) =~= label@.subrange(1, i as int).push(
                label@[i as int],
            ));
            i += 1;
        }
        assert(name@ =~= label_name(label@));
        if self.vars.define(&name, wrap_word(offset as i32)) {
            Ok(())
        } else {
            Err(AsmError::RedefinedLabel { line })
        }
    }

    /// Writes a word at the write position and moves the position on,
    /// wrapping at the end of the memory.
    pub fn write(&mut self, word: i16)
        ensures
            final(self).data@ == old(self).data@.update(old(self).offset as int, word),
            final(self).offset == wrap_addr(old(self).offset + 1),
            final(self).line == old(self).line,
            final(self).vars == old(self).vars,
            forall|before: Assembler, code: Code| #[trigger]
                old(self).wrote(before, code) ==> final(self).wrote(before, code.word(word)),
    {
        self.data[self.offset as usize] = word;
        self.offset = self.offset.wrapping_add(1);
        assert forall|before: Assembler, code: Code| #[trigger]
            old(self).wrote(before, code) implies self.wrote(before, code.word(word)) by {
            reveal(Assembler::wrote);
            lemma_stored_push(before.data@, before.offset as int, code.words, word);
            lemma_wrapped_sum(before.offset + code.words.len(), 1);
        }
    }

    /// Writes the jump target that ends a triple: the address `n` triples
    /// after the triple that follows the one being written.
    pub fn pc_jump(&mut self, n: i16)
        ensures
            final(self).data@ == old(self).data@.update(
                old(self).offset as int,
                word_of(old(self).offset + 1 + 3 * n),
            ),
            final(self).offset == wrap_addr(old(self).offset + 1),
            final(self).line == old(self).line,
            final(self).vars == old(self).vars,
            forall|before: Assembler, code: Code| #[trigger]
                old(self).wrote(before, code) ==> final(self).wrote(before, code.jump(n as int)),
    {
        let w = wrap_word(self.offset as i32 + 1 + 3 * (n as i32));
        assert forall|before: Assembler, code: Code| #[trigger]
            self.wrote(before, code) implies code.word(w) == code.jump(n as int) by {
            reveal(Assembler::wrote);
            reveal(target);
            reveal(Code::jump);
            lemma_wrapped_sum(before.offset + code.words.len(), 1 + 3 * n);
        }
        self.write(w)
    }

    /// Writes the address that lies `n` words after the write position.
    pub fn pc_offset(&mut self, n: i16)
        ensures
            final(self).data@ == old(self).data@.update(
                old(self).offset as int,
                word_of(old(self).offset + n),
            ),
            final(self).offset == wrap_addr(old(self).offset + 1),
            final(self).line == old(self).line,
            final(self).vars == old(self).vars,
            forall|before: Assembler, code: Code| #[trigger]
                old(self).wrote(before, code) ==> final(self).wrote(
                    before,
                    code.offset(n as int),
                ),
    {
        let w = wrap_word(self.offset as i32 + n as i32);
        assert forall|before: Assembler, code: Code| #[trigger]
            self.wrote(before, code) implies code.word(w) == code.offset(n as int) by {
            reveal(Assembler::wrote);
            reveal(target);
            reveal(Code::offset);
            lemma_wrapped_sum(before.offset + code.words.len(), n as int);
        }
        self.write(w)
    }

    /// Operand `i` of the line at hand as text.
    pub fn args_get<'a>(&self, args: &'a [Vec<char>], i: usize) -> (r: Result<
        &'a Vec<char>,
        AsmError,
    >)
        ensures
            i < args@.len() ==> r == Ok::<&Vec<char>, AsmError>(&args@[i as int]),
            i >= args@.len() ==> r is Err && r->Err_0@ == (Fault::MissingArgument {
                line: self.line as int,
                arg: i as int,
            }),
    {
        if i < args.len() {
            Ok(&args[i])
        } else {
            Err(AsmError::MissingArgument { line: self.line, arg: i })
        }
    }

    /// Operand `i` of the line at hand as a word: the address of a defined
    /// name, else the value of an integer literal.
    pub fn var_get(&self, args: &[Vec<char>], i: usize) -> (r: Result<i16, AsmError>)
        ensures
            match resolved(self.vars@, texts(args@), i as int, self.line as int) {
                Ok(w) => r == Ok::<i16, AsmError>(w),
                Err(f) => r is Err && r->Err_0@ == f,
            },
    {
        let tok = match self.args_get(args, i) {
            Ok(t) => t,
            Err(e) => {
                return Err(e);
            },
        };
        match self.vars.get(tok) {
            Some(w) => Ok(w),
            None => match parse_word(tok) {
                Some(w) => Ok(w),
                None => Err(AsmError::Unresolved { text: copy_text(tok), line: self.line, arg: i }),
            },
        }
    }

    /// `set d, s`: d := s. d is cleared, A takes the negation of s and is
    /// subtracted from d. Where d and s are one cell, the code only clears A,
    /// and the cell stays as it is.
    pub fn set(&mut self, args: &[Vec<char>]) -> (r: Result<(), AsmError>)
        ensures
            final(self).assembled(*old(self), Mnemonic::Assign, texts(args@), r),
    {
        proof {
            reveal(expansion);
            reveal(set_code);
            reveal_with_fuel(operands, 4);
        }
        let d = self.var_get(args, 0)?;
        let s = self.var_get(args, 1)?;
        proof {
            self.lemma_wrote_nothing();
        }

        if d == s {
            self.write(Registers::A);
            self.write(Registers::A);
            self.pc_jump(0);

            self.write(Registers::A);
            self.write(Registers::A);
            self.pc_jump(0);

            self.write(Registers::A);
            self.write(Registers::A);
            self.pc_jump(0);

            self.write(Registers::A);
            self.write(Registers::A);
            self.pc_jump(0);
        } else {
            self.write(d);
            self.write(d);
            self.pc_jump(0);

            self.write(Registers::A);
            self.write(Registers::A);
            self.pc_jump(0);

            self.write(s);
            self.write(Registers::A);
            self.pc_jump(0);

            self.write(Registers::A);
            self.write(d);
            self.pc_jump(0);
        }

        Ok(())
    }

    /// `slt d, s`: d := 1 if d < s as signed words, else 0. The signs of d and
    /// s are told apart first, so that the difference that decides is formed
    /// only where it fits a word.
    pub fn slt(&mut self, args: &[Vec<char>]) -> (r: Result<(), AsmError>)
        ensures
            final(self).assembled(*old(self), Mnemonic::Slt, texts(args@), r),
    {
        proof {
            reveal(expansion);
            reveal(slt_code);
            reveal_with_fuel(operands, 4);
        }
        let d = self.var_get(args, 0)?;
        let s = self.var_get(args, 1)?;
        proof {
            self.lemma_wrote_nothing();
        }

        self.write(Registers::A);
        self.write(Registers::A);
        self.pc_jump(0);

        self.write(Registers::B);
        self.write(Registers::B);
        self.pc_jump(0);

        self.write(Registers::A);
        self.write(d);
        self.pc_jump(5);

        self.write(Registers::A);
        self.write(s);
        self.pc_jump(11);

        self.write(s);
        self.write(Registers::B);
        self.pc_jump(0);

        self.write(Registers::B);
        self.write(Registers::A);
        self.pc_jump(0);

        self.write(d);
        self.write(Registers::A);
        self.pc_jump(8);

        self.write(Registers::A);
        self.write(Registers::A);
        self.pc_jump(8);

        self.write(Registers::A);
        self.write(s);
        self.pc_jump(1);

        self.write(Registers::A);
        self.write(Registers::A);
        self.pc_jump(6);

        self.write(Registers::N1);
        self.write(s);
        self.pc_jump(3);

        self.write(Registers::P1);
        self.write(s);
        self.pc_jump(0);

        self.write(Registers::N1);
        self.write(d);
        self.pc_jump(3);

        self.write(Registers::A);
        self.write(Registers::A);
        self.pc_jump(1);

        self.write(Registers::P1);
        self.write(s);
        self.pc_jump(-11);

        self.write(d);
        self.write(d);
        self.pc_jump(2);

        self.write(d);
        self.write(d);
        self.pc_jump(0);

        self.write(Registers::N1);
        self.write(d);
        self.pc_jump(0);

        Ok(())
    }

    /// `clr d`: d := 0.
    pub fn clr(&mut self, args: &[Vec<char>]) -> (r: Result<(), AsmError>)
        ensures
            final(self).assembled(*old(self), Mnemonic::Clr, texts(args@), r),
    {
        proof {
            reveal(expansion);
            reveal(clr_code);
            reveal_with_fuel(operands, 4);
        }
        let d = self.var_get(args, 0)?;
        proof {
            self.lemma_wrote_nothing();
        }

        self.write(d);
        self.write(d);
        self.pc_jump(0);

        Ok(())
    }

    /// `neg d`: d := -d, by way of the scratch registers A and B.
    pub fn neg(&mut self, args: &[Vec<char>]) -> (r: Result<(), AsmError>)
        ensures
            final(self).assembled(*old(self), Mnemonic::Neg, texts(args@), r),
    {
        proof {
            reveal(expansion);
            reveal(neg_code);
            reveal_with_fuel(operands, 4);
        }
        let d = self.var_get(args, 0)?;
        proof {
            self.lemma_wrote_nothing();
        }

        self.write(Registers::A);
        self.write(Registers::A);
        self.pc_jump(0);

        self.write(Registers::B);
        self.write(Registers::B);
        self.pc_jump(0);

        self.write(d);
        self.write(Registers::A);
        self.pc_jump(0);

        self.write(d);
        self.write(d);
        self.pc_jump(0);

        self.write(Registers::A);
        self.write(Registers::B);
        self.pc_jump(0);

        self.write(Registers::B);
        self.write(d);
        self.pc_jump(0);

        Ok(())
    }

    /// `add d, s`: d := d + s: A takes the negation of s and is subtracted from
    /// d.
    pub fn add(&mut self, args: &[Vec<char>]) -> (r: Result<(), AsmError>)
        ensures
            final(self).assembled(*old(self), Mnemonic::Add, texts(args@), r),
    {
        proof {
            reveal(expansion);
            reveal(add_code);
            reveal_with_fuel(operands, 4);
        }
        let d = self.var_get(args, 0)?;
        let s = self.var_get(args, 1)?;
        proof {
            self.lemma_wrote_nothing();
        }

        self.write(Registers::A);
        self.write(Registers::A);
        self.pc_jump(0);

        self.write(s);
        self.write(Registers::A);
        self.pc_jump(0);

        self.write(Registers::A);
        self.write(d);
        self.pc_jump(0);

        Ok(())
    }

    /// `sub d, s`: d := d - s: the primitive itself, with control going on
    /// behind it.
    pub fn sub(&mut self, args: &[Vec<char>]) -> (r: Result<(), AsmError>)
        ensures
            final(self).assembled(*old(self), Mnemonic::Sub, texts(args@), r),
    {
        proof {
            reveal(expansion);
            reveal(sub_code);
            reveal_with_fuel(operands, 4);
        }
        let d = self.var_get(args, 0)?;
        let s = self.var_get(args, 1)?;
        proof {
            self.lemma_wrote_nothing();
        }

        self.write(s);
        self.write(d);
        self.pc_jump(0);

        Ok(())
    }

    /// `jmp l`: control goes to l, by clearing A.
    pub fn jmp(&mut self, args: &[Vec<char>]) -> (r: Result<(), AsmError>)
        ensures
            final(self).assembled(*old(self), Mnemonic::Jmp, texts(args@), r),
    {
        proof {
            reveal(expansion);
            reveal(jmp_code);
            reveal_with_fuel(operands, 4);
        }
        let l = self.var_get(args, 0)?;
        proof {
            self.lemma_wrote_nothing();
        }

        self.write(Registers::A);
        self.write(Registers::A);
        self.write(l);

        Ok(())
    }

    /// `beq d, l`: control goes to l if d == 0. It tests d <= 0, then adds 1 to
    /// d, tests that and takes the 1 back; nothing is negated, so the least
    /// word is not taken for 0.
    pub fn beq(&mut self, args: &[Vec<char>]) -> (r: Result<(), AsmError>)
        ensures
            final(self).assembled(*old(self), Mnemonic::Beq, texts(args@), r),
    {
        proof {
            reveal(expansion);
            reveal(beq_code);
            reveal_with_fuel(operands, 4);
        }
        let d = self.var_get(args, 0)?;
        let l = self.var_get(args, 1)?;
        proof {
            self.lemma_wrote_nothing();
        }

        self.write(Registers::A);
        self.write(Registers::A);
        self.pc_jump(0);

        self.write(Registers::A);
        self.write(d);
        self.pc_jump(1);

        self.write(Registers::A);
        self.write(Registers::A);
        self.pc_jump(3);

        self.write(Registers::N1);
        self.write(d);
        self.pc_jump(1);

        self.write(Registers::P1);
        self.write(d);
        self.write(l);

        self.write(Registers::P1);
        self.write(d);
        self.pc_jump(0);

        Ok(())
    }

    /// `blq d, l`: control goes to l if d <= 0: the test that the primitive
    /// makes, on d less a zero.
    pub fn blq(&mut self, args: &[Vec<char>]) -> (r: Result<(), AsmError>)
        ensures
            final(self).assembled(*old(self), Mnemonic::Blq, texts(args@), r),
    {
        proof {
            reveal(expansion);
            reveal(blq_code);
            reveal_with_fuel(operands, 4);
        }
        let d = self.var_get(args, 0)?;
        let l = self.var_get(args, 1)?;
        proof {
            self.lemma_wrote_nothing();
        }

        self.write(Registers::A);
        self.write(Registers::A);
        self.pc_jump(0);

        self.write(Registers::A);
        self.write(d);
        self.write(l);

        Ok(())
    }

    /// `bgq d, l`: control goes to l if d >= 0. A takes the negation of d;
    /// where that is positive, d is negative. Else 1 is subtracted from A,
    /// which leaves it positive only for the least word, whose negation wraps.
    /// d is only read.
    pub fn bgq(&mut self, args: &[Vec<char>]) -> (r: Result<(), AsmError>)
        ensures
            final(self).assembled(*old(self), Mnemonic::Bgq, texts(args@), r),
    {
        proof {
            reveal(expansion);
            reveal(bgq_code);
            reveal_with_fuel(operands, 4);
        }
        let d = self.var_get(args, 0)?;
        let l = self.var_get(args, 1)?;
        proof {
            self.lemma_wrote_nothing();
        }

        self.write(Registers::A);
        self.write(Registers::A);
        self.pc_jump(0);

        self.write(d);
        self.write(Registers::A);
        self.pc_jump(1);

        self.write(Registers::A);
        self.write(Registers::A);
        self.pc_jump(1);

        self.write(Registers::P1);
        self.write(Registers::A);
        self.write(l);

        Ok(())
    }

    /// `slq a, b, l`: the primitive itself: b := b - a, and control goes to l
    /// if the result is <= 0.
    pub fn slq(&mut self, args: &[Vec<char>]) -> (r: Result<(), AsmError>)
        ensures
            final(self).assembled(*old(self), Mnemonic::Slq, texts(args@), r),
    {
        proof {
            reveal(expansion);
            reveal(slq_code);
            reveal_with_fuel(operands, 4);
        }
        let a = self.var_get(args, 0)?;
        let b = self.var_get(args, 1)?;
        let l = self.var_get(args, 2)?;
        proof {
            self.lemma_wrote_nothing();
        }

        self.write(a);
        self.write(b);
        self.write(l);

        Ok(())
    }

    /// `inc d`: d := d + 1, by subtracting the constant -1.
    pub fn inc(&mut self, args: &[Vec<char>]) -> (r: Result<(), AsmError>)
        ensures
            final(self).assembled(*old(self), Mnemonic::Inc, texts(args@), r),
    {
        proof {
            reveal(expansion);
            reveal(inc_code);
            reveal_with_fuel(operands, 4);
        }
        let d = self.var_get(args, 0)?;
        proof {
            self.lemma_wrote_nothing();
        }

        self.write(Registers::N1);
        self.write(d);
        self.pc_jump(0);

        Ok(())
    }

    /// `dec d`: d := d - 1, by subtracting the constant 1.
    pub fn dec(&mut self, args: &[Vec<char>]) -> (r: Result<(), AsmError>)
        ensures
            final(self).assembled(*old(self), Mnemonic::Dec, texts(args@), r),
    {
        proof {
            reveal(expansion);
            reveal(dec_code);
            reveal_with_fuel(operands, 4);
        }
        let d = self.var_get(args, 0)?;
        proof {
            self.lemma_wrote_nothing();
        }

        self.write(Registers::P1);
        self.write(d);
        self.pc_jump(0);

        Ok(())
    }

    /// `jsr l`: pushes the negated address behind the call on the stack that S
    /// points to, moves S on, then control goes to l. The four words of the
    /// code that are to name the stack slot are cleared and then set from S.
    pub fn jsr(&mut self, args: &[Vec<char>]) -> (r: Result<(), AsmError>)
        ensures
            final(self).assembled(*old(self), Mnemonic::Jsr, texts(args@), r),
    {
        proof {
            reveal(expansion);
            reveal(jsr_code);
            reveal_with_fuel(operands, 4);
        }
        let l = self.var_get(args, 0)?;
        proof {
            self.lemma_wrote_nothing();
        }

        self.pc_offset(30);
        self.pc_offset(29);
        self.pc_jump(0);

        self.pc_offset(28);
        self.pc_offset(27);
        self.pc_jump(0);

        self.pc_offset(28);
        self.pc_offset(27);
        self.pc_jump(0);

        self.pc_offset(28);
        self.pc_offset(27);
        self.pc_jump(0);

        self.write(Registers::A);
        self.write(Registers::A);
        self.pc_jump(0);

        self.write(Registers::S);
        self.write(Registers::A);
        self.pc_jump(0);

        self.write(Registers::A);
        self.pc_offset(11);
        self.pc_jump(0);

        self.write(Registers::A);
        self.pc_offset(9);
        self.pc_jump(0);

        self.write(Registers::A);
        self.pc_offset(9);
        self.pc_jump(0);

        self.write(Registers::A);
        self.pc_offset(9);
        self.pc_jump(0);

        self.write(0);
        self.write(0);
        self.pc_jump(0);

        self.pc_offset(0);
        self.write(0);
        self.pc_jump(0);

        self.write(Registers::J);
        self.write(0);
        self.pc_jump(0);

        self.write(Registers::N1);
        self.write(Registers::S);
        self.pc_jump(0);

        self.write(Registers::A);
        self.write(Registers::A);
        self.write(l);

        Ok(())
    }

    /// `cll l, v`: as `jsr l`, and the callee finds the value of v in A1.
    pub fn cll(&mut self, args: &[Vec<char>]) -> (r: Result<(), AsmError>)
        ensures
            final(self).assembled(*old(self), Mnemonic::Cll, texts(args@), r),
    {
        proof {
            reveal(expansion);
            reveal(cll_code);
            reveal_with_fuel(operands, 4);
        }
        let l = self.var_get(args, 0)?;
        let v = self.var_get(args, 1)?;
        proof {
            self.lemma_wrote_nothing();
        }

        self.write(Registers::A1);
        self.write(Registers::A1);
        self.pc_jump(0);

        self.write(Registers::B);
        self.write(Registers::B);
        self.pc_jump(0);

        self.write(v);
        self.write(Registers::B);
        self.pc_jump(0);

        self.pc_offset(30);
        self.pc_offset(29);
        self.pc_jump(0);

        self.pc_offset(28);
        self.pc_offset(27);
        self.pc_jump(0);

        self.pc_offset(28);
        self.pc_offset(27);
        self.pc_jump(0);

        self.pc_offset(28);
        self.pc_offset(27);
        self.pc_jump(0);

        self.write(Registers::A);
        self.write(Registers::A);
        self.pc_jump(0);

        self.write(Registers::S);
        self.write(Registers::A);
        self.pc_jump(0);

        self.write(Registers::A);
        self.pc_offset(11);
        self.pc_jump(0);

        self.write(Registers::A);
        self.pc_offset(9);
        self.pc_jump(0);

        self.write(Registers::A);
        self.pc_offset(9);
        self.pc_jump(0);

        self.write(Registers::A);
        self.pc_offset(9);
        self.pc_jump(0);

        self.write(0);
        self.write(0);
        self.pc_jump(0);

        self.pc_offset(0);
        self.write(0);
        self.pc_jump(0);

        self.write(Registers::K);
        self.write(0);
        self.pc_jump(0);

        self.write(Registers::N1);
        self.write(Registers::S);
        self.pc_jump(0);

        self.write(Registers::B);
        self.write(Registers::A1);
        self.pc_jump(0);

        self.write(Registers::A);
        self.write(Registers::A);
        self.write(l);

        Ok(())
    }

    /// `ret`: moves S back and takes control to the address whose negation the
    /// stack slot holds that S then points to: behind the call that pushed it.
    pub fn ret(&mut self, args: &[Vec<char>]) -> (r: Result<(), AsmError>)
        ensures
            final(self).assembled(*old(self), Mnemonic::Ret, texts(args@), r),
    {
        proof {
            reveal(expansion);
            reveal(ret_code);
        }
        proof {
            self.lemma_wrote_nothing();
        }

        self.pc_offset(18);
        self.pc_offset(17);
        self.pc_jump(0);

        self.pc_offset(20);
        self.pc_offset(19);
        self.pc_jump(0);

        self.write(Registers::P1);
        self.write(Registers::S);
        self.pc_jump(0);

        self.write(Registers::A);
        self.write(Registers::A);
        self.pc_jump(0);

        self.write(Registers::S);
        self.write(Registers::A);
        self.pc_jump(0);

        self.write(Registers::A);
        self.pc_offset(2);
        self.pc_jump(0);

        self.write(0);
        self.pc_offset(4);
        self.pc_jump(0);

        self.write(Registers::A);
        self.write(Registers::A);
        self.write(0);

        Ok(())
    }

    /// Writes the code of the instruction that `cmd` names, with `args` as
    /// its operands, and moves on to the next line. An error carries the
    /// number of the instruction's line.
    pub fn assemble_instruction(&mut self, cmd: &Vec<char>, args: &[Vec<char>]) -> (r: Result<
        (),
        AsmError,
    >)
        ensures
            final(self).line == next_line(old(self).line),
            match Mnemonic::named(cmd@) {
                Some(m) => final(self).on_line(old(self).line).assembled(
                    *old(self),
                    m,
                    texts(args@),
                    r,
                ),
                None => r is Err && r->Err_0@ == (Fault::UndefinedInstruction {
                    line: old(self).line as int,
                }) && final(self).on_line(old(self).line) == *old(self),
            },
    {
        let r = match Mnemonic::from_name(cmd) {
            None => Err(AsmError::UndefinedInstruction { line: self.line }),
            Some(m) => match m {
                Mnemonic::Assign => self.set(args),
                Mnemonic::Slt => self.slt(args),
                Mnemonic::Clr => self.clr(args),
                Mnemonic::Neg => self.neg(args),
                Mnemonic::Add => self.add(args),
                Mnemonic::Sub => self.sub(args),
                Mnemonic::Jmp => self.jmp(args),
                Mnemonic::Beq => self.beq(args),
                Mnemonic::Blq => self.blq(args),
                Mnemonic::Bgq => self.bgq(args),
                Mnemonic::Slq => self.slq(args),
                Mnemonic::Inc => self.inc(args),
                Mnemonic::Dec => self.dec(args),
                Mnemonic::Jsr => self.jsr(args),
                Mnemonic::Cll => self.cll(args),
                Mnemonic::Ret => self.ret(args),
            },
        };
        proof {
            reveal(Assembler::wrote);
        }
        assert(self.line == old(self).line);
        let ghost done = *self;
        self.advance();
        assert(self.on_line(old(self).line) == done);
        r
    }
}

} // verus!
