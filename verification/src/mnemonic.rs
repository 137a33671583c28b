//! The instructions of the source language.

use vstd::prelude::*;
use crate::text::text_is;

verus! {

/// An instruction of the source language. Each one stands for a fixed number
/// of primitive triples.
#[derive(Clone, Copy, PartialEq, Eq, Debug, Structural)]
pub enum Mnemonic {
    Assign,
    Slt,
    Clr,
    Neg,
    Add,
    Sub,
    Beq,
    Blq,
    Bgq,
    Slq,
    Inc,
    Dec,
    Jmp,
    Jsr,
    Cll,
    Ret,
}

impl Mnemonic {
    /// The number of triples that the instruction stands for.
    pub open spec fn size(self) -> int {
        match self {
            Mnemonic::Assign => 4,
            Mnemonic::Slt => 18,
            Mnemonic::Clr => 1,
            Mnemonic::Neg => 6,
            Mnemonic::Add => 3,
            Mnemonic::Sub => 1,
            Mnemonic::Beq => 6,
            Mnemonic::Blq => 2,
            Mnemonic::Bgq => 4,
            Mnemonic::Slq => 1,
            Mnemonic::Inc => 1,
            Mnemonic::Dec => 1,
            Mnemonic::Jmp => 1,
            Mnemonic::Jsr => 15,
            Mnemonic::Cll => 19,
            Mnemonic::Ret => 8,
        }
    }

    /// The number of operands that the instruction reads.
    pub open spec fn arity(self) -> int {
        match self {
            Mnemonic::Ret => 0,
            Mnemonic::Clr | Mnemonic::Neg | Mnemonic::Inc | Mnemonic::Dec | Mnemonic::Jmp
            | Mnemonic::Jsr => 1,
            Mnemonic::Assign | Mnemonic::Slt | Mnemonic::Add | Mnemonic::Sub | Mnemonic::Beq
            | Mnemonic::Blq | Mnemonic::Bgq | Mnemonic::Cll => 2,
            Mnemonic::Slq => 3,
        }
    }

    /// The instruction's name in source text.
    pub open spec fn text(self) -> Seq<char> {
        match self {
            Mnemonic::Assign => "set"@,
            Mnemonic::Slt => "slt"@,
            Mnemonic::Clr => "clr"@,
            Mnemonic::Neg => "neg"@,
            Mnemonic::Add => "add"@,
            Mnemonic::Sub => "sub"@,
            Mnemonic::Beq => "beq"@,
            Mnemonic::Blq => "blq"@,
            Mnemonic::Bgq => "bgq"@,
            Mnemonic::Slq => "slq"@,
            Mnemonic::Inc => "inc"@,
            Mnemonic::Dec => "dec"@,
            Mnemonic::Jmp => "jmp"@,
            Mnemonic::Jsr => "jsr"@,
            Mnemonic::Cll => "cll"@,
            Mnemonic::Ret => "ret"@,
        }
    }

    /// The instruction that a token names, if any.
    pub open spec fn named(s: Seq<char>) -> Option<Mnemonic> {
        if s == "set"@ {
            Some(Mnemonic::Assign)
        } else if s == "slt"@ {
            Some(Mnemonic::Slt)
        } else if s == "clr"@ {
            Some(Mnemonic::Clr)
        } else if s == "neg"@ {
            Some(Mnemonic::Neg)
        } else if s == "add"@ {
            Some(Mnemonic::Add)
        } else if s == "sub"@ {
            Some(Mnemonic::Sub)
        } else if s == "beq"@ {
            Some(Mnemonic::Beq)
        } else if s == "blq"@ {
            Some(Mnemonic::Blq)
        } else if s == "bgq"@ {
            Some(Mnemonic::Bgq)
        } else if s == "slq"@ {
            Some(Mnemonic::Slq)
        } else if s == "inc"@ {
            Some(Mnemonic::Inc)
        } else if s == "dec"@ {
            Some(Mnemonic::Dec)
        } else if s == "jmp"@ {
            Some(Mnemonic::Jmp)
        } else if s == "jsr"@ {
            Some(Mnemonic::Jsr)
        } else if s == "cll"@ {
            Some(Mnemonic::Cll)
        } else if s == "ret"@ {
            Some(Mnemonic::Ret)
        } else {
            None
        }
    }

    /// Every instruction is the one that its own name names.
    pub proof fn law_name_round_trip(self)
        ensures
            Self::named(self.text()) == Some(self),
    {
        reveal_strlit("set");
        reveal_strlit("slt");
        reveal_strlit("clr");
        reveal_strlit("neg");
        reveal_strlit("add");
        reveal_strlit("sub");
        reveal_strlit("beq");
        reveal_strlit("blq");
        reveal_strlit("bgq");
        reveal_strlit("slq");
        reveal_strlit("inc");
        reveal_strlit("dec");
        reveal_strlit("jmp");
        reveal_strlit("jsr");
        reveal_strlit("cll");
        reveal_strlit("ret");
        assert("set"@[0] == 's' && "set"@[1] == 'e' && "set"@[2] == 't');
        assert("slt"@[0] == 's' && "slt"@[1] == 'l' && "slt"@[2] == 't');
        assert("clr"@[0] == 'c' && "clr"@[1] == 'l' && "clr"@[2] == 'r');
        assert("neg"@[0] == 'n' && "neg"@[1] == 'e' && "neg"@[2] == 'g');
        assert("add"@[0] == 'a' && "add"@[1] == 'd' && "add"@[2] == 'd');
        assert("sub"@[0] == 's' && "sub"@[1] == 'u' && "sub"@[2] == 'b');
        assert("beq"@[0] == 'b' && "beq"@[1] == 'e' && "beq"@[2] == 'q');
        assert("blq"@[0] == 'b' && "blq"@[1] == 'l' && "blq"@[2] == 'q');
        assert("bgq"@[0] == 'b' && "bgq"@[1] == 'g' && "bgq"@[2] == 'q');
        assert("slq"@[0] == 's' && "slq"@[1] == 'l' && "slq"@[2] == 'q');
        assert("inc"@[0] == 'i' && "inc"@[1] == 'n' && "inc"@[2] == 'c');
        assert("dec"@[0] == 'd' && "dec"@[1] == 'e' && "dec"@[2] == 'c');
        assert("jmp"@[0] == 'j' && "jmp"@[1] == 'm' && "jmp"@[2] == 'p');
        assert("jsr"@[0] == 'j' && "jsr"@[1] == 's' && "jsr"@[2] == 'r');
        assert("cll"@[0] == 'c' && "cll"@[1] == 'l' && "cll"@[2] == 'l');
        assert("ret"@[0] == 'r' && "ret"@[1] == 'e' && "ret"@[2] == 't');
    }

    /// The number of triples that the instruction stands for.
    pub fn triples(self) -> (n: u16)
        ensures
            n == self.size(),
            1 <= n <= 19,
    {
        match self {
            Mnemonic::Assign => 4,
            Mnemonic::Slt => 18,
            Mnemonic::Clr => 1,
            Mnemonic::Neg => 6,
            Mnemonic::Add => 3,
            Mnemonic::Sub => 1,
            Mnemonic::Beq => 6,
            Mnemonic::Blq => 2,
            Mnemonic::Bgq => 4,
            Mnemonic::Slq => 1,
            Mnemonic::Inc => 1,
            Mnemonic::Dec => 1,
            Mnemonic::Jmp => 1,
            Mnemonic::Jsr => 15,
            Mnemonic::Cll => 19,
            Mnemonic::Ret => 8,
        }
    }

    /// The instruction's name in source text.
    pub fn name(self) -> (s: &'static str)
        ensures
            s@ == self.text(),
    {
        match self {
            Mnemonic::Assign => "set",
            Mnemonic::Slt => "slt",
            Mnemonic::Clr => "clr",
            Mnemonic::Neg => "neg",
            Mnemonic::Add => "add",
            Mnemonic::Sub => "sub",
            Mnemonic::Beq => "beq",
            Mnemonic::Blq => "blq",
            Mnemonic::Bgq => "bgq",
            Mnemonic::Slq => "slq",
            Mnemonic::Inc => "inc",
            Mnemonic::Dec => "dec",
            Mnemonic::Jmp => "jmp",
            Mnemonic::Jsr => "jsr",
            Mnemonic::Cll => "cll",
            Mnemonic::Ret => "ret",
        }
    }

    /// The instruction that a token names, if any.
    pub fn from_name(tok: &Vec<char>) -> (r: Option<Mnemonic>)
        ensures
            r == Self::named(tok@),
    {
        if text_is(tok, "set") {
            Some(Mnemonic::Assign)
        } else if text_is(tok, "slt") {
            Some(Mnemonic::Slt)
        } else if text_is(tok, "clr") {
            Some(Mnemonic::Clr)
        } else if text_is(tok, "neg") {
            Some(Mnemonic::Neg)
        } else if text_is(tok, "add") {
            Some(Mnemonic::Add)
        } else if text_is(tok, "sub") {
            Some(Mnemonic::Sub)
        } else if text_is(tok, "beq") {
            Some(Mnemonic::Beq)
        } else if text_is(tok, "blq") {
            Some(Mnemonic::Blq)
        } else if text_is(tok, "bgq") {
            Some(Mnemonic::Bgq)
        } else if text_is(tok, "slq") {
            Some(Mnemonic::Slq)
        } else if text_is(tok, "inc") {
            Some(Mnemonic::Inc)
        } else if text_is(tok, "dec") {
            Some(Mnemonic::Dec)
        } else if text_is(tok, "jmp") {
            Some(Mnemonic::Jmp)
        } else if text_is(tok, "jsr") {
            Some(Mnemonic::Jsr)
        } else if text_is(tok, "cll") {
            Some(Mnemonic::Cll)
        } else if text_is(tok, "ret") {
            Some(Mnemonic::Ret)
        } else {
            None
        }
    }
}

} // verus!
