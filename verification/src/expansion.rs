//! The words that each instruction stands for.

use vstd::prelude::*;
use crate::subleq::{word_of, wrap_addr};
use crate::registers::Registers;
use crate::mnemonic::Mnemonic;

verus! {

/// The word that names the address `n` words after `p`. Proofs that only
/// pass such words on keep the function folded.
#[verifier::opaque]
pub open spec fn target(p: int, n: int) -> i16 {
    word_of(p + n)
}

/// A run of words that is meant to stand at address `base`.
pub struct Code {
    pub base: int,
    pub words: Seq<i16>,
}

impl Code {
    /// No words yet.
    pub open spec fn at(base: int) -> Code {
        Code { base, words: Seq::empty() }
    }

    /// One more word.
    pub open spec fn word(self, w: i16) -> Code {
        Code { base: self.base, words: self.words.push(w) }
    }

    /// One more word: the address that lies `n` words after this word.
    #[verifier::opaque]
    pub open spec fn offset(self, n: int) -> Code {
        self.word(target(self.base, self.words.len() + n))
    }

    /// One more word, the jump target that ends a triple: the address `n`
    /// triples after the triple that follows.
    #[verifier::opaque]
    pub open spec fn jump(self, n: int) -> Code {
        self.word(target(self.base, self.words.len() + 1 + 3 * n))
    }

    /// A triple after which control goes on with the next triple, whatever
    /// the result of the subtraction.
    pub open spec fn step(self, a: i16, b: i16) -> Code {
        self.word(a).word(b).jump(0)
    }

    /// A triple that skips `n` triples if the result is not positive.
    pub open spec fn skip(self, a: i16, b: i16, n: int) -> Code {
        self.word(a).word(b).jump(n)
    }

    /// A triple that goes to address `c` if the result is not positive.
    pub open spec fn go(self, a: i16, b: i16, c: i16) -> Code {
        self.word(a).word(b).word(c)
    }
}

/// A memory after `words` were written from address `at` on, wrapping at the
/// end of the memory.
pub open spec fn stored(ram: Seq<i16>, at: int, words: Seq<i16>) -> Seq<i16>
    decreases words.len(),
{
    if words.len() == 0 {
        ram
    } else {
        stored(ram, at, words.drop_last()).update(
            wrap_addr(at + words.len() - 1),
            words.last(),
        )
    }
}

/// Writing one more word changes the memory at one place.
pub proof fn lemma_stored_push(ram: Seq<i16>, at: int, words: Seq<i16>, w: i16)
    ensures
        stored(ram, at, words.push(w)) == stored(ram, at, words).update(
            wrap_addr(at + words.len()),
            w,
        ),
{
    assert(words.push(w).drop_last() =~= words);
}

/// `set d, s`: d := s. d is cleared, A takes the negation of s and is
/// subtracted from d. Where d and s are one cell, the code only clears A, and
/// the cell stays as it is.
#[verifier::opaque]
pub open spec fn set_code(p: int, d: i16, s: i16) -> Code {
    if d == s {
        Code::at(p)
            .step(Registers::A, Registers::A)
            .step(Registers::A, Registers::A)
            .step(Registers::A, Registers::A)
            .step(Registers::A, Registers::A)
    } else {
        Code::at(p)
            .step(d, d)
            .step(Registers::A, Registers::A)
            .step(s, Registers::A)
            .step(Registers::A, d)
    }
}

/// The words of `set`, one triple to a line.
pub open spec fn set_words(p: int, d: i16, s: i16) -> Seq<i16> {
    if d == s {
        seq![
            Registers::A, Registers::A, target(p, 3),
            Registers::A, Registers::A, target(p, 6),
            Registers::A, Registers::A, target(p, 9),
            Registers::A, Registers::A, target(p, 12),
        ]
    } else {
        seq![
            d, d, target(p, 3),
            Registers::A, Registers::A, target(p, 6),
            s, Registers::A, target(p, 9),
            Registers::A, d, target(p, 12),
        ]
    }
}

/// The code of `set` holds the words of `set_words`.
pub proof fn lemma_set_shape(p: int, d: i16, s: i16)
    ensures
        set_code(p, d, s).base == p,
        set_code(p, d, s).words == set_words(p, d, s),
{
    reveal(set_code);
    reveal(Code::jump);
    reveal(Code::offset);
    assert(set_code(p, d, s).words =~= set_words(p, d, s));
}

/// `slt d, s`: d := 1 if d < s as signed words, else 0. The signs of d and s
/// are told apart first, so that the difference that decides is formed only
/// where it fits a word.
#[verifier::opaque]
pub open spec fn slt_code(p: int, d: i16, s: i16) -> Code {
    Code::at(p)
        .step(Registers::A, Registers::A)
        .step(Registers::B, Registers::B)
        .skip(Registers::A, d, 5)
        .skip(Registers::A, s, 11)
        .step(s, Registers::B)
        .step(Registers::B, Registers::A)
        .skip(d, Registers::A, 8)
        .skip(Registers::A, Registers::A, 8)
        .skip(Registers::A, s, 1)
        .skip(Registers::A, Registers::A, 6)
        .skip(Registers::N1, s, 3)
        .step(Registers::P1, s)
        .skip(Registers::N1, d, 3)
        .skip(Registers::A, Registers::A, 1)
        .skip(Registers::P1, s, -11)
        .skip(d, d, 2)
        .step(d, d)
        .step(Registers::N1, d)
}

/// The words of `slt`, one triple to a line.
pub open spec fn slt_words(p: int, d: i16, s: i16) -> Seq<i16> {
    seq![
        Registers::A, Registers::A, target(p, 3),
        Registers::B, Registers::B, target(p, 6),
        Registers::A, d, target(p, 24),
        Registers::A, s, target(p, 45),
        s, Registers::B, target(p, 15),
        Registers::B, Registers::A, target(p, 18),
        d, Registers::A, target(p, 45),
        Registers::A, Registers::A, target(p, 48),
        Registers::A, s, target(p, 30),
        Registers::A, Registers::A, target(p, 48),
        Registers::N1, s, target(p, 42),
        Registers::P1, s, target(p, 36),
        Registers::N1, d, target(p, 48),
        Registers::A, Registers::A, target(p, 45),
        Registers::P1, s, target(p, 12),
        d, d, target(p, 54),
        d, d, target(p, 51),
        Registers::N1, d, target(p, 54),
    ]
}

/// The code of `slt` holds the words of `slt_words`.
pub proof fn lemma_slt_shape(p: int, d: i16, s: i16)
    ensures
        slt_code(p, d, s).base == p,
        slt_code(p, d, s).words == slt_words(p, d, s),
{
    reveal(slt_code);
    reveal(Code::jump);
    reveal(Code::offset);
    assert(slt_code(p, d, s).words =~= slt_words(p, d, s));
}

/// `clr d`: d := 0.
#[verifier::opaque]
pub open spec fn clr_code(p: int, d: i16) -> Code {
    Code::at(p)
        .step(d, d)
}

/// The words of `clr`, one triple to a line.
pub open spec fn clr_words(p: int, d: i16) -> Seq<i16> {
    seq![
        d, d, target(p, 3),
    ]
}

/// The code of `clr` holds the words of `clr_words`.
pub proof fn lemma_clr_shape(p: int, d: i16)
    ensures
        clr_code(p, d).base == p,
        clr_code(p, d).words == clr_words(p, d),
{
    reveal(clr_code);
    reveal(Code::jump);
    reveal(Code::offset);
    assert(clr_code(p, d).words =~= clr_words(p, d));
}

/// `neg d`: d := -d, by way of the scratch registers A and B.
#[verifier::opaque]
pub open spec fn neg_code(p: int, d: i16) -> Code {
    Code::at(p)
        .step(Registers::A, Registers::A)
        .step(Registers::B, Registers::B)
        .step(d, Registers::A)
        .step(d, d)
        .step(Registers::A, Registers::B)
        .step(Registers::B, d)
}

/// The words of `neg`, one triple to a line.
pub open spec fn neg_words(p: int, d: i16) -> Seq<i16> {
    seq![
        Registers::A, Registers::A, target(p, 3),
        Registers::B, Registers::B, target(p, 6),
        d, Registers::A, target(p, 9),
        d, d, target(p, 12),
        Registers::A, Registers::B, target(p, 15),
        Registers::B, d, target(p, 18),
    ]
}

/// The code of `neg` holds the words of `neg_words`.
pub proof fn lemma_neg_shape(p: int, d: i16)
    ensures
        neg_code(p, d).base == p,
        neg_code(p, d).words == neg_words(p, d),
{
    reveal(neg_code);
    reveal(Code::jump);
    reveal(Code::offset);
    assert(neg_code(p, d).words =~= neg_words(p, d));
}

/// `add d, s`: d := d + s: A takes the negation of s and is subtracted from d.
#[verifier::opaque]
pub open spec fn add_code(p: int, d: i16, s: i16) -> Code {
    Code::at(p)
        .step(Registers::A, Registers::A)
        .step(s, Registers::A)
        .step(Registers::A, d)
}

/// The words of `add`, one triple to a line.
pub open spec fn add_words(p: int, d: i16, s: i16) -> Seq<i16> {
    seq![
        Registers::A, Registers::A, target(p, 3),
        s, Registers::A, target(p, 6),
        Registers::A, d, target(p, 9),
    ]
}

/// The code of `add` holds the words of `add_words`.
pub proof fn lemma_add_shape(p: int, d: i16, s: i16)
    ensures
        add_code(p, d, s).base == p,
        add_code(p, d, s).words == add_words(p, d, s),
{
    reveal(add_code);
    reveal(Code::jump);
    reveal(Code::offset);
    assert(add_code(p, d, s).words =~= add_words(p, d, s));
}

/// `sub d, s`: d := d - s: the primitive itself, with control going on behind
/// it.
#[verifier::opaque]
pub open spec fn sub_code(p: int, d: i16, s: i16) -> Code {
    Code::at(p)
        .step(s, d)
}

/// The words of `sub`, one triple to a line.
pub open spec fn sub_words(p: int, d: i16, s: i16) -> Seq<i16> {
    seq![
        s, d, target(p, 3),
    ]
}

/// The code of `sub` holds the words of `sub_words`.
pub proof fn lemma_sub_shape(p: int, d: i16, s: i16)
    ensures
        sub_code(p, d, s).base == p,
        sub_code(p, d, s).words == sub_words(p, d, s),
{
    reveal(sub_code);
    reveal(Code::jump);
    reveal(Code::offset);
    assert(sub_code(p, d, s).words =~= sub_words(p, d, s));
}

/// `jmp l`: control goes to l, by clearing A.
#[verifier::opaque]
pub open spec fn jmp_code(p: int, l: i16) -> Code {
    Code::at(p)
        .go(Registers::A, Registers::A, l)
}

/// The words of `jmp`, one triple to a line.
pub open spec fn jmp_words(p: int, l: i16) -> Seq<i16> {
    seq![
        Registers::A, Registers::A, l,
    ]
}

/// The code of `jmp` holds the words of `jmp_words`.
pub proof fn lemma_jmp_shape(p: int, l: i16)
    ensures
        jmp_code(p, l).base == p,
        jmp_code(p, l).words == jmp_words(p, l),
{
    reveal(jmp_code);
    reveal(Code::jump);
    reveal(Code::offset);
    assert(jmp_code(p, l).words =~= jmp_words(p, l));
}

/// `beq d, l`: control goes to l if d == 0. It tests d <= 0, then adds 1 to d,
/// tests that and takes the 1 back; nothing is negated, so the least word is
/// not taken for 0.
#[verifier::opaque]
pub open spec fn beq_code(p: int, d: i16, l: i16) -> Code {
    Code::at(p)
        .step(Registers::A, Registers::A)
        .skip(Registers::A, d, 1)
        .skip(Registers::A, Registers::A, 3)
        .skip(Registers::N1, d, 1)
        .go(Registers::P1, d, l)
        .step(Registers::P1, d)
}

/// The words of `beq`, one triple to a line.
pub open spec fn beq_words(p: int, d: i16, l: i16) -> Seq<i16> {
    seq![
        Registers::A, Registers::A, target(p, 3),
        Registers::A, d, target(p, 9),
        Registers::A, Registers::A, target(p, 18),
        Registers::N1, d, target(p, 15),
        Registers::P1, d, l,
        Registers::P1, d, target(p, 18),
    ]
}

/// The code of `beq` holds the words of `beq_words`.
pub proof fn lemma_beq_shape(p: int, d: i16, l: i16)
    ensures
        beq_code(p, d, l).base == p,
        beq_code(p, d, l).words == beq_words(p, d, l),
{
    reveal(beq_code);
    reveal(Code::jump);
    reveal(Code::offset);
    assert(beq_code(p, d, l).words =~= beq_words(p, d, l));
}

/// `blq d, l`: control goes to l if d <= 0: the test that the primitive makes,
/// on d less a zero.
#[verifier::opaque]
pub open spec fn blq_code(p: int, d: i16, l: i16) -> Code {
    Code::at(p)
        .step(Registers::A, Registers::A)
        .go(Registers::A, d, l)
}

/// The words of `blq`, one triple to a line.
pub open spec fn blq_words(p: int, d: i16, l: i16) -> Seq<i16> {
    seq![
        Registers::A, Registers::A, target(p, 3),
        Registers::A, d, l,
    ]
}

/// The code of `blq` holds the words of `blq_words`.
pub proof fn lemma_blq_shape(p: int, d: i16, l: i16)
    ensures
        blq_code(p, d, l).base == p,
        blq_code(p, d, l).words == blq_words(p, d, l),
{
    reveal(blq_code);
    reveal(Code::jump);
    reveal(Code::offset);
    assert(blq_code(p, d, l).words =~= blq_words(p, d, l));
}

/// `bgq d, l`: control goes to l if d >= 0. A takes the negation of d; where
/// that is positive, d is negative. Else 1 is subtracted from A, which leaves
/// it positive only for the least word, whose negation wraps. d is only read.
#[verifier::opaque]
pub open spec fn bgq_code(p: int, d: i16, l: i16) -> Code {
    Code::at(p)
        .step(Registers::A, Registers::A)
        .skip(d, Registers::A, 1)
        .skip(Registers::A, Registers::A, 1)
        .go(Registers::P1, Registers::A, l)
}

/// The words of `bgq`, one triple to a line.
pub open spec fn bgq_words(p: int, d: i16, l: i16) -> Seq<i16> {
    seq![
        Registers::A, Registers::A, target(p, 3),
        d, Registers::A, target(p, 9),
        Registers::A, Registers::A, target(p, 12),
        Registers::P1, Registers::A, l,
    ]
}

/// The code of `bgq` holds the words of `bgq_words`.
pub proof fn lemma_bgq_shape(p: int, d: i16, l: i16)
    ensures
        bgq_code(p, d, l).base == p,
        bgq_code(p, d, l).words == bgq_words(p, d, l),
{
    reveal(bgq_code);
    reveal(Code::jump);
    reveal(Code::offset);
    assert(bgq_code(p, d, l).words =~= bgq_words(p, d, l));
}

/// `slq a, b, l`: the primitive itself: b := b - a, and control goes to l if
/// the result is <= 0.
#[verifier::opaque]
pub open spec fn slq_code(p: int, a: i16, b: i16, l: i16) -> Code {
    Code::at(p)
        .go(a, b, l)
}

/// The words of `slq`, one triple to a line.
pub open spec fn slq_words(p: int, a: i16, b: i16, l: i16) -> Seq<i16> {
    seq![
        a, b, l,
    ]
}

/// The code of `slq` holds the words of `slq_words`.
pub proof fn lemma_slq_shape(p: int, a: i16, b: i16, l: i16)
    ensures
        slq_code(p, a, b, l).base == p,
        slq_code(p, a, b, l).words == slq_words(p, a, b, l),
{
    reveal(slq_code);
    reveal(Code::jump);
    reveal(Code::offset);
    assert(slq_code(p, a, b, l).words =~= slq_words(p, a, b, l));
}

/// `inc d`: d := d + 1, by subtracting the constant -1.
#[verifier::opaque]
pub open spec fn inc_code(p: int, d: i16) -> Code {
    Code::at(p)
        .step(Registers::N1, d)
}

/// The words of `inc`, one triple to a line.
pub open spec fn inc_words(p: int, d: i16) -> Seq<i16> {
    seq![
        Registers::N1, d, target(p, 3),
    ]
}

/// The code of `inc` holds the words of `inc_words`.
pub proof fn lemma_inc_shape(p: int, d: i16)
    ensures
        inc_code(p, d).base == p,
        inc_code(p, d).words == inc_words(p, d),
{
    reveal(inc_code);
    reveal(Code::jump);
    reveal(Code::offset);
    assert(inc_code(p, d).words =~= inc_words(p, d));
}

/// `dec d`: d := d - 1, by subtracting the constant 1.
#[verifier::opaque]
pub open spec fn dec_code(p: int, d: i16) -> Code {
    Code::at(p)
        .step(Registers::P1, d)
}

/// The words of `dec`, one triple to a line.
pub open spec fn dec_words(p: int, d: i16) -> Seq<i16> {
    seq![
        Registers::P1, d, target(p, 3),
    ]
}

/// The code of `dec` holds the words of `dec_words`.
pub proof fn lemma_dec_shape(p: int, d: i16)
    ensures
        dec_code(p, d).base == p,
        dec_code(p, d).words == dec_words(p, d),
{
    reveal(dec_code);
    reveal(Code::jump);
    reveal(Code::offset);
    assert(dec_code(p, d).words =~= dec_words(p, d));
}

/// `jsr l`: pushes the negated address behind the call on the stack that S
/// points to, moves S on, then control goes to l. The four words of the code
/// that are to name the stack slot are cleared and then set from S.
#[verifier::opaque]
pub open spec fn jsr_code(p: int, l: i16) -> Code {
    Code::at(p)
        .offset(30)
        .offset(29)
        .jump(0)
        .offset(28)
        .offset(27)
        .jump(0)
        .offset(28)
        .offset(27)
        .jump(0)
        .offset(28)
        .offset(27)
        .jump(0)
        .step(Registers::A, Registers::A)
        .step(Registers::S, Registers::A)
        .word(Registers::A)
        .offset(11)
        .jump(0)
        .word(Registers::A)
        .offset(9)
        .jump(0)
        .word(Registers::A)
        .offset(9)
        .jump(0)
        .word(Registers::A)
        .offset(9)
        .jump(0)
        .step(0, 0)
        .offset(0)
        .word(0)
        .jump(0)
        .step(Registers::J, 0)
        .step(Registers::N1, Registers::S)
        .go(Registers::A, Registers::A, l)
}

/// The words of `jsr`, one triple to a line.
pub open spec fn jsr_words(p: int, l: i16) -> Seq<i16> {
    seq![
        target(p, 30), target(p, 30), target(p, 3),
        target(p, 31), target(p, 31), target(p, 6),
        target(p, 34), target(p, 34), target(p, 9),
        target(p, 37), target(p, 37), target(p, 12),
        Registers::A, Registers::A, target(p, 15),
        Registers::S, Registers::A, target(p, 18),
        Registers::A, target(p, 30), target(p, 21),
        Registers::A, target(p, 31), target(p, 24),
        Registers::A, target(p, 34), target(p, 27),
        Registers::A, target(p, 37), target(p, 30),
        0, 0, target(p, 33),
        target(p, 33), 0, target(p, 36),
        Registers::J, 0, target(p, 39),
        Registers::N1, Registers::S, target(p, 42),
        Registers::A, Registers::A, l,
    ]
}

/// The code of `jsr` holds the words of `jsr_words`.
pub proof fn lemma_jsr_shape(p: int, l: i16)
    ensures
        jsr_code(p, l).base == p,
        jsr_code(p, l).words == jsr_words(p, l),
{
    reveal(jsr_code);
    reveal(Code::jump);
    reveal(Code::offset);
    assert(jsr_code(p, l).words =~= jsr_words(p, l));
}

/// `cll l, v`: as `jsr l`, and the callee finds the value of v in A1.
#[verifier::opaque]
pub open spec fn cll_code(p: int, l: i16, v: i16) -> Code {
    Code::at(p)
        .step(Registers::A1, Registers::A1)
        .step(Registers::B, Registers::B)
        .step(v, Registers::B)
        .offset(30)
        .offset(29)
        .jump(0)
        .offset(28)
        .offset(27)
        .jump(0)
        .offset(28)
        .offset(27)
        .jump(0)
        .offset(28)
        .offset(27)
        .jump(0)
        .step(Registers::A, Registers::A)
        .step(Registers::S, Registers::A)
        .word(Registers::A)
        .offset(11)
        .jump(0)
        .word(Registers::A)
        .offset(9)
        .jump(0)
        .word(Registers::A)
        .offset(9)
        .jump(0)
        .word(Registers::A)
        .offset(9)
        .jump(0)
        .step(0, 0)
        .offset(0)
        .word(0)
        .jump(0)
        .step(Registers::K, 0)
        .step(Registers::N1, Registers::S)
        .step(Registers::B, Registers::A1)
        .go(Registers::A, Registers::A, l)
}

/// The words of `cll`, one triple to a line.
pub open spec fn cll_words(p: int, l: i16, v: i16) -> Seq<i16> {
    seq![
        Registers::A1, Registers::A1, target(p, 3),
        Registers::B, Registers::B, target(p, 6),
        v, Registers::B, target(p, 9),
        target(p, 39), target(p, 39), target(p, 12),
        target(p, 40), target(p, 40), target(p, 15),
        target(p, 43), target(p, 43), target(p, 18),
        target(p, 46), target(p, 46), target(p, 21),
        Registers::A, Registers::A, target(p, 24),
        Registers::S, Registers::A, target(p, 27),
        Registers::A, target(p, 39), target(p, 30),
        Registers::A, target(p, 40), target(p, 33),
        Registers::A, target(p, 43), target(p, 36),
        Registers::A, target(p, 46), target(p, 39),
        0, 0, target(p, 42),
        target(p, 42), 0, target(p, 45),
        Registers::K, 0, target(p, 48),
        Registers::N1, Registers::S, target(p, 51),
        Registers::B, Registers::A1, target(p, 54),
        Registers::A, Registers::A, l,
    ]
}

/// The code of `cll` holds the words of `cll_words`.
pub proof fn lemma_cll_shape(p: int, l: i16, v: i16)
    ensures
        cll_code(p, l, v).base == p,
        cll_code(p, l, v).words == cll_words(p, l, v),
{
    reveal(cll_code);
    reveal(Code::jump);
    reveal(Code::offset);
    assert(cll_code(p, l, v).words =~= cll_words(p, l, v));
}

/// `ret`: moves S back and takes control to the address whose negation the
/// stack slot holds that S then points to: behind the call that pushed it.
#[verifier::opaque]
pub open spec fn ret_code(p: int) -> Code {
    Code::at(p)
        .offset(18)
        .offset(17)
        .jump(0)
        .offset(20)
        .offset(19)
        .jump(0)
        .step(Registers::P1, Registers::S)
        .step(Registers::A, Registers::A)
        .step(Registers::S, Registers::A)
        .word(Registers::A)
        .offset(2)
        .jump(0)
        .word(0)
        .offset(4)
        .jump(0)
        .go(Registers::A, Registers::A, 0)
}

/// The words of `ret`, one triple to a line.
pub open spec fn ret_words(p: int) -> Seq<i16> {
    seq![
        target(p, 18), target(p, 18), target(p, 3),
        target(p, 23), target(p, 23), target(p, 6),
        Registers::P1, Registers::S, target(p, 9),
        Registers::A, Registers::A, target(p, 12),
        Registers::S, Registers::A, target(p, 15),
        Registers::A, target(p, 18), target(p, 18),
        0, target(p, 23), target(p, 21),
        Registers::A, Registers::A, 0,
    ]
}

/// The code of `ret` holds the words of `ret_words`.
pub proof fn lemma_ret_shape(p: int)
    ensures
        ret_code(p).base == p,
        ret_code(p).words == ret_words(p),
{
    reveal(ret_code);
    reveal(Code::jump);
    reveal(Code::offset);
    assert(ret_code(p).words =~= ret_words(p));
}

/// The code that an instruction with resolved operands stands for at address
/// `p`.
#[verifier::opaque]
pub open spec fn expansion(m: Mnemonic, p: int, ops: Seq<i16>) -> Code {
    match m {
        Mnemonic::Assign => set_code(p, ops[0], ops[1]),
        Mnemonic::Slt => slt_code(p, ops[0], ops[1]),
        Mnemonic::Clr => clr_code(p, ops[0]),
        Mnemonic::Neg => neg_code(p, ops[0]),
        Mnemonic::Add => add_code(p, ops[0], ops[1]),
        Mnemonic::Sub => sub_code(p, ops[0], ops[1]),
        Mnemonic::Jmp => jmp_code(p, ops[0]),
        Mnemonic::Beq => beq_code(p, ops[0], ops[1]),
        Mnemonic::Blq => blq_code(p, ops[0], ops[1]),
        Mnemonic::Bgq => bgq_code(p, ops[0], ops[1]),
        Mnemonic::Slq => slq_code(p, ops[0], ops[1], ops[2]),
        Mnemonic::Inc => inc_code(p, ops[0]),
        Mnemonic::Dec => dec_code(p, ops[0]),
        Mnemonic::Jsr => jsr_code(p, ops[0]),
        Mnemonic::Cll => cll_code(p, ops[0], ops[1]),
        Mnemonic::Ret => ret_code(p),
    }
}

/// Every instruction stands for as many words as its size says, whatever its
/// operands and wherever it is placed: three for each of its triples.
pub proof fn law_size_matches_code(m: Mnemonic, p: int, ops: Seq<i16>)
    ensures
        expansion(m, p, ops).words.len() == 3 * m.size(),
        expansion(m, p, ops).base == p,
{
    reveal(expansion);
    reveal(Code::jump);
    reveal(Code::offset);
    reveal(set_code);
    reveal(slt_code);
    reveal(clr_code);
    reveal(neg_code);
    reveal(add_code);
    reveal(sub_code);
    reveal(jmp_code);
    reveal(beq_code);
    reveal(blq_code);
    reveal(bgq_code);
    reveal(slq_code);
    reveal(inc_code);
    reveal(dec_code);
    reveal(jsr_code);
    reveal(cll_code);
    reveal(ret_code);
}

} // verus!
