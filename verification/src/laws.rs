//! Laws of the passes: names are defined once, and the passes agree on
//! addresses.

use vstd::prelude::*;
use crate::error::Fault;
use crate::assembler::{label_name, operands, register_names};
use crate::expansion::{expansion, law_size_matches_code};
use crate::mnemonic::Mnemonic;
use crate::stepping::{free, holds, law_written_code_stands};
use crate::subleq::{word_of, wrap_addr};
use crate::registers::Registers;
use crate::passes::{
    blank_draft, declare_step, declared, directives, encoded, located, encode_step, kind_of, lemma_passed_fails, locate_step, passed,
    program_of, Build, Draft, Survey,
};

verus! {

/// Whether a line is a data directive that names `x`.
pub open spec fn declares(toks: Seq<Seq<char>>, x: Seq<char>) -> bool {
    kind_of(toks) is Directive && toks.len() >= 2 && toks[1] == x
}

/// Whether a line is a label that names `x`.
pub open spec fn labels(toks: Seq<Seq<char>>, x: Seq<char>) -> bool {
    kind_of(toks) is Label && label_name(toks[0]) == x
}

/// Whether a line defines the name `x`, as a variable or as a label.
pub open spec fn defines(toks: Seq<Seq<char>>, x: Seq<char>) -> bool {
    declares(toks, x) || labels(toks, x)
}

/// A pass that succeeds on `n` lines succeeds on every shorter prefix.
pub proof fn lemma_passed_prefix<S>(
    step: spec_fn(S, Seq<Seq<char>>, int) -> Result<S, Fault>,
    init: S,
    src: Seq<Seq<Seq<char>>>,
    k: int,
    n: int,
)
    requires
        0 <= k <= n,
        passed(step, init, src, n) is Ok,
    ensures
        passed(step, init, src, k) is Ok,
{
    if passed(step, init, src, k) is Err {
        lemma_passed_fails(step, init, src, k, n);
    }
}

/// After a first pass that succeeds, every name from before is still
/// defined, and so is every name that a data directive names.
pub proof fn lemma_layout_names(d0: Draft, src: Seq<Seq<Seq<char>>>, n: int)
    requires
        0 <= n <= src.len(),
        passed(declare_step(), d0, src, n) is Ok,
    ensures
        forall|x: Seq<char>| #[trigger]
            d0.names.contains_key(x) ==> passed(declare_step(), d0, src, n)->Ok_0.names.contains_key(
                x,
            ),
        forall|i: int, x: Seq<char>|
            0 <= i < n && #[trigger] declares(src[i], x) ==> passed(
                declare_step(),
                d0,
                src,
                n,
            )->Ok_0.names.contains_key(x),
    decreases n,
{
    if n > 0 {
        lemma_passed_prefix(declare_step(), d0, src, n - 1, n);
        lemma_layout_names(d0, src, n - 1);
    }
}

/// After a second pass that succeeds, every name from before is still
/// defined, and so is every name that a label names.
pub proof fn lemma_survey_names(s0: Survey, src: Seq<Seq<Seq<char>>>, n: int)
    requires
        0 <= n <= src.len(),
        passed(locate_step(), s0, src, n) is Ok,
    ensures
        forall|x: Seq<char>| #[trigger]
            s0.names.contains_key(x) ==> passed(locate_step(), s0, src, n)->Ok_0.names.contains_key(
                x,
            ),
        forall|i: int, x: Seq<char>|
            0 <= i < n && #[trigger] labels(src[i], x) ==> passed(
                locate_step(),
                s0,
                src,
                n,
            )->Ok_0.names.contains_key(x),
    decreases n,
{
    if n > 0 {
        lemma_passed_prefix(locate_step(), s0, src, n - 1, n);
        lemma_survey_names(s0, src, n - 1);
    }
}

/// A program in which a line defines a name that is defined when that line
/// is reached does not assemble: a data directive fails in the first pass if
/// the name is a register or was declared on an earlier line, and a label
/// fails in the second pass if the name is a register, a variable of any
/// line, or a label of an earlier line.
pub proof fn lemma_taken_name_fails(src: Seq<Seq<Seq<char>>>, j: int, x: Seq<char>)
    requires
        0 <= j < src.len(),
        defines(src[j], x),
        register_names().contains_key(x) || (exists|i: int|
            0 <= i < j && #[trigger] defines(src[i], x)) || (labels(src[j], x) && exists|i: int|
            0 <= i < src.len() && #[trigger] declares(src[i], x)),
    ensures
        program_of(src) is Err,
{
    let n = src.len() as int;
    let first = passed(declare_step(), blank_draft(), src, n);
    if first is Ok {
        let start = Survey { names: first->Ok_0.names, at: first->Ok_0.at };
        let second = passed(locate_step(), start, src, n);
        lemma_layout_names(blank_draft(), src, n);
        if declares(src[j], x) {
            lemma_passed_prefix(declare_step(), blank_draft(), src, j, n);
            lemma_passed_prefix(declare_step(), blank_draft(), src, j + 1, n);
            lemma_layout_names(blank_draft(), src, j);
            let before = passed(declare_step(), blank_draft(), src, j)->Ok_0;
            assert(passed(declare_step(), blank_draft(), src, j + 1) == declared(
                before,
                src[j],
                j + 1,
            ));
            if !before.names.contains_key(x) {
                // the name is neither a register nor declared earlier: an
                // earlier label carries it, and the second pass meets it there
                assert(blank_draft().names == register_names());
                assert(!blank_draft().names.contains_key(x));
                assert(!labels(src[j], x));
                let i = choose|i: int| 0 <= i < j && #[trigger] defines(src[i], x);
                assert(!declares(src[i], x));
                assert(labels(src[i], x));
                assert(first->Ok_0.names.contains_key(x));
                if second is Ok {
                    lemma_passed_prefix(locate_step(), start, src, i, n);
                    lemma_passed_prefix(locate_step(), start, src, i + 1, n);
                    lemma_survey_names(start, src, i);
                    let there = passed(locate_step(), start, src, i)->Ok_0;
                    assert(start.names.contains_key(x));
                    assert(there.names.contains_key(x));
                    assert(passed(locate_step(), start, src, i + 1) == located(
                        there,
                        src[i],
                        i + 1,
                    ));
                }
            }
        } else if second is Ok {
            lemma_passed_prefix(locate_step(), start, src, j, n);
            lemma_passed_prefix(locate_step(), start, src, j + 1, n);
            lemma_survey_names(start, src, j);
            let before = passed(locate_step(), start, src, j)->Ok_0;
            assert(blank_draft().names == register_names());
            if register_names().contains_key(x) {
                assert(blank_draft().names.contains_key(x));
                assert(start.names.contains_key(x));
            } else if exists|i: int| 0 <= i < src.len() && #[trigger] declares(src[i], x) {
                let i = choose|i: int| 0 <= i < src.len() && #[trigger] declares(src[i], x);
                assert(start.names.contains_key(x));
            } else {
                let i = choose|i: int| 0 <= i < j && #[trigger] defines(src[i], x);
                assert(labels(src[i], x));
            }
            assert(before.names.contains_key(x));
            assert(passed(locate_step(), start, src, j + 1) == located(before, src[j], j + 1));
        }
    }
}

/// No program assembles in which two lines define one name, be it as
/// variables, as labels, or as one of each.
pub proof fn law_names_are_defined_once(src: Seq<Seq<Seq<char>>>, i: int, j: int, x: Seq<char>)
    requires
        0 <= i < j < src.len(),
        defines(src[i], x),
        defines(src[j], x),
    ensures
        program_of(src) is Err,
{
    if declares(src[j], x) && labels(src[i], x) {
        lemma_taken_name_fails(src, i, x);
    } else {
        lemma_taken_name_fails(src, j, x);
    }
}

/// No program assembles in which a line defines the name of a register.
pub proof fn law_register_names_are_taken(src: Seq<Seq<Seq<char>>>, j: int, x: Seq<char>)
    requires
        0 <= j < src.len(),
        defines(src[j], x),
        register_names().contains_key(x),
    ensures
        program_of(src) is Err,
{
    lemma_taken_name_fails(src, j, x);
}

/// The second and the third pass agree on addresses: from the same start
/// they reach the same address after any number of lines, so every label
/// names the address where the code of the next instruction is written.
pub proof fn law_passes_agree(
    src: Seq<Seq<Seq<char>>>,
    n: int,
    start: Survey,
    first: Build,
)
    requires
        0 <= n <= src.len(),
        start.at == first.draft.at,
        passed(locate_step(), start, src, n) is Ok,
        passed(encode_step(), first, src, n) is Ok,
    ensures
        passed(locate_step(), start, src, n)->Ok_0.at == passed(
            encode_step(),
            first,
            src,
            n,
        )->Ok_0.draft.at,
    decreases n,
{
    if n > 0 {
        lemma_passed_prefix(locate_step(), start, src, n - 1, n);
        lemma_passed_prefix(encode_step(), first, src, n - 1, n);
        law_passes_agree(src, n - 1, start, first);
    }
}

/// The number of words that the instructions among the first `n` lines
/// stand for.
pub open spec fn code_words(src: Seq<Seq<Seq<char>>>, n: int) -> int
    decreases n,
{
    if n <= 0 {
        0
    } else if kind_of(src[n - 1]) is Instruction && Mnemonic::named(src[n - 1][0]) is Some {
        code_words(src, n - 1) + 3 * Mnemonic::named(src[n - 1][0])->Some_0.size()
    } else {
        code_words(src, n - 1)
    }
}

/// The words of code never get fewer.
pub proof fn lemma_code_words_grow(src: Seq<Seq<Seq<char>>>, k: int, n: int)
    requires
        k <= n,
    ensures
        0 <= code_words(src, k) <= code_words(src, n),
    decreases n,
{
    if n > 0 {
        if k < n {
            lemma_code_words_grow(src, k, n - 1);
        } else {
            lemma_code_words_grow(src, n - 1, n - 1);
        }
    }
}

/// While the code fits below the end of the memory, the third pass writes
/// upwards: after `n` lines the write position lies behind the words of all
/// instructions so far, the names are as they were, and what stood below the
/// write position after `k` lines, memory and listing, still stands.
pub proof fn lemma_emission_grows(first: Build, src: Seq<Seq<Seq<char>>>, k: int, n: int)
    requires
        0 <= k <= n <= src.len(),
        passed(encode_step(), first, src, n) is Ok,
        first.draft.ram.len() == 65536,
        0 <= first.draft.at,
        first.draft.at + code_words(src, n) < 65536,
    ensures
        passed(encode_step(), first, src, k) is Ok,
        ({
            let bk = passed(encode_step(), first, src, k)->Ok_0;
            let bn = passed(encode_step(), first, src, n)->Ok_0;
            &&& bk.draft.at == first.draft.at + code_words(src, k)
            &&& bn.draft.at == first.draft.at + code_words(src, n)
            &&& bn.draft.names == first.draft.names
            &&& bn.draft.ram.len() == 65536
            &&& forall|j: int| 0 <= j < bk.draft.at ==> #[trigger] bn.draft.ram[j] == bk.draft.ram[j]
            &&& forall|a: u16|
                a < bk.draft.at ==> (#[trigger] bn.listing.contains_key(a))
                    == bk.listing.contains_key(a) && (bk.listing.contains_key(a) ==> bn.listing[a]
                    == bk.listing[a])
        }),
    decreases n,
{
    lemma_passed_prefix(encode_step(), first, src, k, n);
    lemma_code_words_grow(src, k, n);
    lemma_code_words_grow(src, 0, k);
    if n > 0 {
        lemma_passed_prefix(encode_step(), first, src, n - 1, n);
        lemma_code_words_grow(src, n - 1, n);
        let before = passed(encode_step(), first, src, n - 1)->Ok_0;
        let now = passed(encode_step(), first, src, n)->Ok_0;
        assert(passed(encode_step(), first, src, n) == encoded(before, src[n - 1], n));
        if k < n {
            lemma_code_words_grow(src, k, n - 1);
            lemma_emission_grows(first, src, k, n - 1);
        } else {
            lemma_emission_grows(first, src, n - 1, n - 1);
        }
        if kind_of(src[n - 1]) is Instruction {
            let m = Mnemonic::named(src[n - 1][0])->Some_0;
            let ops = operands(before.draft.names, src[n - 1].skip(1), m.arity() as nat, n)->Ok_0;
            let code = expansion(m, before.draft.at, ops);
            law_size_matches_code(m, before.draft.at, ops);
            law_written_code_stands(before.draft.ram, code);
            assert forall|j: int| 0 <= j < before.draft.at implies free(code, j) by {
                assert forall|i: int| 0 <= i < code.words.len() implies #[trigger] wrap_addr(
                    code.base + i,
                ) != j by {}
            }
        }
    }
}

/// In a program whose code fits below the end of the memory, the code of
/// every instruction stands in the image, with the operands that the line
/// names, at the address behind the code of the instructions before it, and
/// the listing has the instruction at that address.
pub proof fn law_code_stands_in_image(src: Seq<Seq<Seq<char>>>, i: int)
    requires
        program_of(src) is Ok,
        0 <= i < src.len(),
        kind_of(src[i]) is Instruction,
        program_of(src)->Ok_0.entry + code_words(src, src.len() as int) < 65536,
    ensures
        ({
            let prog = program_of(src)->Ok_0;
            let m = Mnemonic::named(src[i][0]);
            let ops = operands(prog.names, src[i].skip(1), m->Some_0.arity() as nat, i + 1);
            let at = prog.entry + code_words(src, i);
            &&& m is Some
            &&& ops is Ok
            &&& holds(prog.ram, expansion(m->Some_0, at, ops->Ok_0))
            &&& prog.listing.contains_key(at as u16)
            &&& prog.listing[at as u16] == m->Some_0
        }),
{
    let n = src.len() as int;
    let data = passed(declare_step(), blank_draft(), src, n)->Ok_0;
    let survey = passed(locate_step(), Survey { names: data.names, at: data.at }, src, n)->Ok_0;
    let first = Build {
        draft: Draft { ram: data.ram, at: data.at, names: survey.names },
        listing: Map::empty(),
    };
    lemma_layout_shape(blank_draft(), src, n);
    lemma_emission_grows(first, src, i, n);
    lemma_emission_grows(first, src, i + 1, n);
    lemma_emission_grows(first, src, i, i);
    lemma_code_words_grow(src, i, i + 1);
    lemma_code_words_grow(src, i + 1, n);
    lemma_code_words_grow(src, 0, i);
    let before = passed(encode_step(), first, src, i)->Ok_0;
    let after = passed(encode_step(), first, src, i + 1)->Ok_0;
    let last = passed(encode_step(), first, src, n)->Ok_0;
    assert(passed(encode_step(), first, src, i + 1) == encoded(before, src[i], i + 1));
    let m = Mnemonic::named(src[i][0])->Some_0;
    let ops = operands(before.draft.names, src[i].skip(1), m.arity() as nat, i + 1)->Ok_0;
    let code = expansion(m, before.draft.at, ops);
    law_size_matches_code(m, before.draft.at, ops);
    law_written_code_stands(before.draft.ram, code);
    assert forall|j: int| 0 <= j < code.words.len() implies last.draft.ram[wrap_addr(
        code.base + j,
    )] == #[trigger] code.words[j] by {
        assert(after.draft.ram[wrap_addr(code.base + j)] == code.words[j]);
        assert(wrap_addr(code.base + j) == code.base + j);
        assert(last.draft.ram[code.base + j] == after.draft.ram[code.base + j]);
    }
    assert(after.listing.contains_key(before.draft.at as u16));
    assert(last.listing.contains_key(before.draft.at as u16));
}

/// The first pass leaves a memory of full length and a write position in it,
/// at or above the start of the data.
pub proof fn lemma_layout_shape(d0: Draft, src: Seq<Seq<Seq<char>>>, n: int)
    requires
        0 <= n <= src.len(),
        passed(declare_step(), d0, src, n) is Ok,
        d0.ram.len() == 65536,
        0 <= d0.at < 65536,
    ensures
        passed(declare_step(), d0, src, n)->Ok_0.ram.len() == 65536,
        0 <= passed(declare_step(), d0, src, n)->Ok_0.at < 65536,
    decreases n,
{
    if n > 0 {
        lemma_passed_prefix(declare_step(), d0, src, n - 1, n);
        lemma_layout_shape(d0, src, n - 1);
    }
}

/// The number of directives never gets smaller.
pub proof fn lemma_directives_grow(src: Seq<Seq<Seq<char>>>, k: int, n: int)
    requires
        k <= n,
    ensures
        0 <= directives(src, k) <= directives(src, n),
    decreases n,
{
    if n > 0 {
        if k < n {
            lemma_directives_grow(src, k, n - 1);
        } else {
            lemma_directives_grow(src, n - 1, n - 1);
        }
    }
}

/// While the data fits below the end of the memory, the first pass writes
/// upwards: after `n` lines the write position lies one word higher for each
/// directive, and the memory from there on is as it was.
pub proof fn lemma_layout_grows(d0: Draft, src: Seq<Seq<Seq<char>>>, n: int)
    requires
        0 <= n <= src.len(),
        passed(declare_step(), d0, src, n) is Ok,
        d0.ram.len() == 65536,
        0 <= d0.at,
        d0.at + directives(src, n) < 65536,
    ensures
        ({
            let d = passed(declare_step(), d0, src, n)->Ok_0;
            &&& d.at == d0.at + directives(src, n)
            &&& d.ram.len() == 65536
            &&& forall|j: int| d.at <= j < 65536 ==> #[trigger] d.ram[j] == d0.ram[j]
        }),
    decreases n,
{
    if n > 0 {
        lemma_passed_prefix(declare_step(), d0, src, n - 1, n);
        lemma_directives_grow(src, n - 1, n);
        lemma_directives_grow(src, 0, n - 1);
        lemma_layout_grows(d0, src, n - 1);
        let before = passed(declare_step(), d0, src, n - 1)->Ok_0;
        assert(passed(declare_step(), d0, src, n) == declared(before, src[n - 1], n));
    }
}

/// While the code fits below the end of the memory, the second pass counts
/// upwards: after `n` lines the running address lies behind the words of all
/// instructions so far, and a name that was bound after `k` lines is still
/// bound to the same address.
pub proof fn lemma_survey_grows(s0: Survey, src: Seq<Seq<Seq<char>>>, k: int, n: int)
    requires
        0 <= k <= n <= src.len(),
        passed(locate_step(), s0, src, n) is Ok,
        0 <= s0.at,
        s0.at + code_words(src, n) < 65536,
    ensures
        passed(locate_step(), s0, src, k) is Ok,
        ({
            let sk = passed(locate_step(), s0, src, k)->Ok_0;
            let sn = passed(locate_step(), s0, src, n)->Ok_0;
            &&& sk.at == s0.at + code_words(src, k)
            &&& sn.at == s0.at + code_words(src, n)
            &&& forall|x: Seq<char>| #[trigger]
                sk.names.contains_key(x) ==> sn.names.contains_key(x) && sn.names[x]
                    == sk.names[x]
        }),
    decreases n,
{
    lemma_passed_prefix(locate_step(), s0, src, k, n);
    lemma_code_words_grow(src, k, n);
    lemma_code_words_grow(src, 0, k);
    if n > 0 {
        lemma_passed_prefix(locate_step(), s0, src, n - 1, n);
        lemma_code_words_grow(src, n - 1, n);
        let before = passed(locate_step(), s0, src, n - 1)->Ok_0;
        assert(passed(locate_step(), s0, src, n) == located(before, src[n - 1], n));
        if k < n {
            lemma_code_words_grow(src, k, n - 1);
            lemma_survey_grows(s0, src, k, n - 1);
        } else {
            lemma_survey_grows(s0, src, n - 1, n - 1);
        }
    }
}

/// Whether the data and the code of a program fit between the register block
/// and the end of the memory.
pub open spec fn fits(src: Seq<Seq<Seq<char>>>) -> bool {
    Registers::DATA_OFFSET + directives(src, src.len() as int) + code_words(
        src,
        src.len() as int,
    ) < 65536
}

/// The layout of the image of a program that fits: one word for each data
/// directive from the first address above the register block on, then the
/// code, three words for each triple of each instruction, and zeros from the
/// end of the code to the end of the memory.
pub proof fn law_image_layout(src: Seq<Seq<Seq<char>>>)
    requires
        program_of(src) is Ok,
        fits(src),
    ensures
        ({
            let prog = program_of(src)->Ok_0;
            &&& prog.vars == directives(src, src.len() as int)
            &&& prog.entry == Registers::DATA_OFFSET + prog.vars
            &&& prog.end == prog.entry + code_words(src, src.len() as int)
            &&& prog.ram.len() == 65536
            &&& forall|j: int| prog.end <= j < 65536 ==> #[trigger] prog.ram[j] == 0
        }),
{
    let n = src.len() as int;
    let data = passed(declare_step(), blank_draft(), src, n)->Ok_0;
    let survey = passed(locate_step(), Survey { names: data.names, at: data.at }, src, n)->Ok_0;
    let first = Build {
        draft: Draft { ram: data.ram, at: data.at, names: survey.names },
        listing: Map::empty(),
    };
    lemma_directives_grow(src, 0, n);
    lemma_code_words_grow(src, 0, n);
    lemma_layout_grows(blank_draft(), src, n);
    lemma_emission_grows(first, src, 0, n);
    lemma_emission_above(first, src, n);
}

/// While the code fits below the end of the memory, the third pass leaves
/// the memory from its write position on as it was.
pub proof fn lemma_emission_above(first: Build, src: Seq<Seq<Seq<char>>>, n: int)
    requires
        0 <= n <= src.len(),
        passed(encode_step(), first, src, n) is Ok,
        first.draft.ram.len() == 65536,
        0 <= first.draft.at,
        first.draft.at + code_words(src, n) < 65536,
    ensures
        ({
            let b = passed(encode_step(), first, src, n)->Ok_0;
            forall|j: int| b.draft.at <= j < 65536 ==> #[trigger] b.draft.ram[j] == first.draft.ram[j]
        }),
    decreases n,
{
    if n > 0 {
        lemma_passed_prefix(encode_step(), first, src, n - 1, n);
        lemma_code_words_grow(src, n - 1, n);
        lemma_code_words_grow(src, 0, n - 1);
        lemma_emission_grows(first, src, n - 1, n);
        lemma_emission_grows(first, src, n - 1, n - 1);
        lemma_emission_above(first, src, n - 1);
        let before = passed(encode_step(), first, src, n - 1)->Ok_0;
        let now = passed(encode_step(), first, src, n)->Ok_0;
        assert(passed(encode_step(), first, src, n) == encoded(before, src[n - 1], n));
        if kind_of(src[n - 1]) is Instruction {
            let m = Mnemonic::named(src[n - 1][0])->Some_0;
            let ops = operands(before.draft.names, src[n - 1].skip(1), m.arity() as nat, n)->Ok_0;
            let code = expansion(m, before.draft.at, ops);
            law_size_matches_code(m, before.draft.at, ops);
            law_written_code_stands(before.draft.ram, code);
            assert forall|j: int| now.draft.at <= j < 65536 implies free(code, j) by {
                assert forall|i: int| 0 <= i < code.words.len() implies #[trigger] wrap_addr(
                    code.base + i,
                ) != j by {}
            }
        }
    }
}

/// In a program that fits, every label names the address behind the code of
/// the instructions before it: the address where the next instruction
/// starts, be the label used before or after its line.
pub proof fn law_label_names_next_instruction(src: Seq<Seq<Seq<char>>>, i: int)
    requires
        program_of(src) is Ok,
        fits(src),
        0 <= i < src.len(),
        kind_of(src[i]) is Label,
    ensures
        ({
            let prog = program_of(src)->Ok_0;
            let name = label_name(src[i][0]);
            &&& prog.names.contains_key(name)
            &&& prog.names[name] == word_of(prog.entry + code_words(src, i))
        }),
{
    let n = src.len() as int;
    let data = passed(declare_step(), blank_draft(), src, n)->Ok_0;
    let start = Survey { names: data.names, at: data.at };
    lemma_directives_grow(src, 0, n);
    lemma_code_words_grow(src, 0, n);
    lemma_layout_grows(blank_draft(), src, n);
    lemma_survey_grows(start, src, i, n);
    lemma_survey_grows(start, src, i + 1, n);
    lemma_code_words_grow(src, i, i + 1);
    let before = passed(locate_step(), start, src, i)->Ok_0;
    let after = passed(locate_step(), start, src, i + 1)->Ok_0;
    assert(passed(locate_step(), start, src, i + 1) == located(before, src[i], i + 1));
    assert(after.names.contains_key(label_name(src[i][0])));
}

} // verus!
