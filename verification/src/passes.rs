//! What the three passes of the assembler compute, as mathematics.

use vstd::prelude::*;
use crate::subleq::{word_of, wrap_addr};
use crate::registers::Registers;
use crate::mnemonic::Mnemonic;
use crate::error::Fault;
use crate::text::{literal, source};
use crate::expansion::{expansion, stored};
use crate::assembler::{blank_image, label_name, operands, register_names, Assembler};

verus! {

/// What a source line is, told by the first character of its first token.
pub enum LineKind {
    /// No token at all.
    Blank,
    /// Starts with `.`: declares data.
    Directive,
    /// Starts with `#`: names a code address.
    Label,
    /// Starts with `%`: names a file that was appended to the text.
    Include,
    /// Anything else: an instruction.
    Instruction,
}

/// The kind of a line of tokens.
pub open spec fn kind_of(toks: Seq<Seq<char>>) -> LineKind {
    if toks.len() == 0 || toks[0].len() == 0 {
        LineKind::Blank
    } else if toks[0][0] == '.' {
        LineKind::Directive
    } else if toks[0][0] == '#' {
        LineKind::Label
    } else if toks[0][0] == '%' {
        LineKind::Include
    } else {
        LineKind::Instruction
    }
}

/// The state that the passes hand on: the memory image, the write position
/// and the names defined so far.
pub struct Draft {
    pub ram: Seq<i16>,
    pub at: int,
    pub names: Map<Seq<char>, i16>,
}

/// The state of an assembler.
pub open spec fn draft_of(a: Assembler) -> Draft {
    Draft { ram: a.data@, at: a.offset as int, names: a.vars@ }
}

/// The state before the first pass.
pub open spec fn blank_draft() -> Draft {
    Draft { ram: blank_image(), at: Registers::DATA_OFFSET as int, names: register_names() }
}

/// A pass over the first `n` lines: each line changes the state or fails,
/// and the first failure ends the pass. Lines count from 1.
pub open spec fn passed<S>(
    step: spec_fn(S, Seq<Seq<char>>, int) -> Result<S, Fault>,
    init: S,
    src: Seq<Seq<Seq<char>>>,
    n: int,
) -> Result<S, Fault>
    decreases n,
{
    if n <= 0 {
        Ok(init)
    } else {
        match passed(step, init, src, n - 1) {
            Err(f) => Err(f),
            Ok(s) => step(s, src[n - 1], n),
        }
    }
}

/// A pass that has failed stays failed, with the same error.
pub proof fn lemma_passed_fails<S>(
    step: spec_fn(S, Seq<Seq<char>>, int) -> Result<S, Fault>,
    init: S,
    src: Seq<Seq<Seq<char>>>,
    k: int,
    n: int,
)
    requires
        0 <= k <= n,
        passed(step, init, src, k) is Err,
    ensures
        passed(step, init, src, n) == passed(step, init, src, k),
    decreases n - k,
{
    if k < n {
        lemma_passed_fails(step, init, src, k, n - 1);
    }
}

/// The first pass on one line. A `.dat` directive with a name and an integer
/// literal takes the word at the write position for a new variable; any other
/// directive is an error.
pub open spec fn declared(d: Draft, toks: Seq<Seq<char>>, line: int) -> Result<Draft, Fault> {
    if !(kind_of(toks) is Directive) {
        Ok(d)
    } else if toks[0] != ".dat"@ {
        Err(Fault::UndefinedDirective { line })
    } else if toks.len() < 3 {
        Err(Fault::MissingArgument { line, arg: 1 })
    } else {
        match literal(toks[2]) {
            None => Err(Fault::InvalidInteger { text: toks[2], line, arg: 1 }),
            Some(v) => if d.names.contains_key(toks[1]) {
                Err(Fault::RedefinedVariable { line })
            } else {
                Ok(
                    Draft {
                        ram: d.ram.update(d.at, v),
                        at: wrap_addr(d.at + 1),
                        names: d.names.insert(toks[1], word_of(d.at)),
                    },
                )
            },
        }
    }
}

/// The first pass as a step function.
pub open spec fn declare_step() -> spec_fn(Draft, Seq<Seq<char>>, int) -> Result<Draft, Fault> {
    |d: Draft, toks: Seq<Seq<char>>, line: int| declared(d, toks, line)
}

/// The number of directive lines among the first `n` lines.
pub open spec fn directives(src: Seq<Seq<Seq<char>>>, n: int) -> int
    decreases n,
{
    if n <= 0 {
        0
    } else if kind_of(src[n - 1]) is Directive {
        directives(src, n - 1) + 1
    } else {
        directives(src, n - 1)
    }
}

/// The state of the second pass: the names, and the address where the next
/// instruction will start.
pub struct Survey {
    pub names: Map<Seq<char>, i16>,
    pub at: int,
}

/// The second pass on one line. A label binds its name to the running
/// address; an instruction moves the address on by its fixed size.
pub open spec fn located(s: Survey, toks: Seq<Seq<char>>, line: int) -> Result<Survey, Fault> {
    match kind_of(toks) {
        LineKind::Label => if s.names.contains_key(label_name(toks[0])) {
            Err(Fault::RedefinedLabel { line })
        } else {
            Ok(Survey { names: s.names.insert(label_name(toks[0]), word_of(s.at)), at: s.at })
        },
        LineKind::Instruction => match Mnemonic::named(toks[0]) {
            None => Err(Fault::UndefinedInstruction { line }),
            Some(m) => Ok(Survey { names: s.names, at: wrap_addr(s.at + 3 * m.size()) }),
        },
        _ => Ok(s),
    }
}

/// The second pass as a step function.
pub open spec fn locate_step() -> spec_fn(Survey, Seq<Seq<char>>, int) -> Result<Survey, Fault> {
    |s: Survey, toks: Seq<Seq<char>>, line: int| located(s, toks, line)
}

/// The state of the third pass: the draft, and which instruction starts at
/// which address.
pub struct Build {
    pub draft: Draft,
    pub listing: Map<u16, Mnemonic>,
}

/// The third pass on one line. An instruction resolves its operands and
/// writes its code at the write position.
pub open spec fn encoded(b: Build, toks: Seq<Seq<char>>, line: int) -> Result<Build, Fault> {
    if !(kind_of(toks) is Instruction) {
        Ok(b)
    } else {
        match Mnemonic::named(toks[0]) {
            None => Err(Fault::UndefinedInstruction { line }),
            Some(m) => match operands(b.draft.names, toks.skip(1), m.arity() as nat, line) {
                Err(f) => Err(f),
                Ok(ops) => Ok(
                    Build {
                        draft: Draft {
                            ram: stored(b.draft.ram, b.draft.at, expansion(m, b.draft.at, ops).words),
                            at: wrap_addr(b.draft.at + 3 * m.size()),
                            names: b.draft.names,
                        },
                        listing: b.listing.insert(b.draft.at as u16, m),
                    },
                ),
            },
        }
    }
}

/// The third pass as a step function.
pub open spec fn encode_step() -> spec_fn(Build, Seq<Seq<char>>, int) -> Result<Build, Fault> {
    |b: Build, toks: Seq<Seq<char>>, line: int| encoded(b, toks, line)
}

/// An assembled program.
pub struct Program {
    /// The memory image.
    pub ram: Seq<i16>,
    /// The address of the first instruction, where execution starts.
    pub entry: int,
    /// The address behind the last instruction.
    pub end: int,
    /// The number of data directives.
    pub vars: int,
    /// Which instruction starts at which address.
    pub listing: Map<u16, Mnemonic>,
    /// The names of the program, each with its address.
    pub names: Map<Seq<char>, i16>,
}

/// The program that lines of tokens assemble to, or the first error: data
/// layout over all lines, then label addresses, then code.
pub open spec fn program_of(src: Seq<Seq<Seq<char>>>) -> Result<Program, Fault> {
    let n = src.len() as int;
    match passed(declare_step(), blank_draft(), src, n) {
        Err(f) => Err(f),
        Ok(data) => match passed(
            locate_step(),
            Survey { names: data.names, at: data.at },
            src,
            n,
        ) {
            Err(f) => Err(f),
            Ok(survey) => match passed(
                encode_step(),
                Build {
                    draft: Draft { ram: data.ram, at: data.at, names: survey.names },
                    listing: Map::empty(),
                },
                src,
                n,
            ) {
                Err(f) => Err(f),
                Ok(b) => Ok(
                    Program {
                        ram: b.draft.ram,
                        entry: data.at,
                        end: b.draft.at,
                        vars: directives(src, n),
                        listing: b.listing,
                        names: survey.names,
                    },
                ),
            },
        },
    }
}

/// The program that a source text assembles to, or the first error.
pub open spec fn assembly(text: Seq<char>) -> Result<Program, Fault> {
    program_of(source(text))
}

} // verus!
