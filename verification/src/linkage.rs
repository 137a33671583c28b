//! What the call and return instructions do when the machine runs their code,
//! which writes into itself.

use vstd::prelude::*;
use crate::subleq::{State, addr_of, lemma_wrapped_words, neg16, sub16, sum16, wrap_addr};
use crate::registers::Registers;
use crate::expansion::{
    Code, cll_code, cll_words, jsr_code, jsr_words, lemma_cll_shape, lemma_jsr_shape,
    lemma_ret_shape, ret_code, ret_words, target,
};
use crate::stepping::{
    after, at, exec, free, holds, holds_but, lemma_after, lemma_after_sum, lemma_cells,
    lemma_diffs, lemma_exit, lemma_holes, lemma_leave, lemma_next, lemma_patch, lemma_read,
    lemma_standing, run, same_outside, standing,
};

verus! {

/// The word that a call pushes is the negated address behind the call, and
/// negating it again names that address.
pub proof fn lemma_pushed(p: int, n: int, k: i16)
    requires
        0 <= k <= n,
    ensures
        sub16(sub16(0, target(p, n - k)), k) == neg16(target(p, n)),
        addr_of(neg16(neg16(target(p, n)))) == wrap_addr(p + n),
{
    reveal(target);
    lemma_wrapped_words(0, target(p, n - k));
    lemma_wrapped_words(sub16(0, target(p, n - k)), k);
    lemma_wrapped_words(target(p, n), 0);
    lemma_wrapped_words(neg16(target(p, n)), 0);
}

/// `jsr l` pushes the negated address behind itself on the stack that the
/// register S points to, moves S on by one, and takes control to l. It may
/// run again and again: the four words that it writes into itself need not
/// hold what they held at first. It changes no cell outside itself but the
/// stack slot, S and the scratch register A. The registers N1 and J must
/// hold -1 and 12, and the stack slot must be none of the registers used.
#[verifier::rlimit(100)]
pub proof fn law_jsr(s: State, l: i16)
    requires
        s.wf(),
        holds_but(s.ram, jsr_code(s.pc, l), 30, 31, 34, 37),
        s.ram[Registers::N1 as int] == -1,
        s.ram[Registers::J as int] == 12,
        free(jsr_code(s.pc, l), Registers::A as int),
        free(jsr_code(s.pc, l), Registers::S as int),
        free(jsr_code(s.pc, l), Registers::J as int),
        free(jsr_code(s.pc, l), Registers::N1 as int),
        free(jsr_code(s.pc, l), addr_of(s.ram[Registers::S as int])),
        addr_of(s.ram[Registers::S as int]) != Registers::A,
        addr_of(s.ram[Registers::S as int]) != Registers::S,
        addr_of(s.ram[Registers::S as int]) != Registers::J,
        addr_of(s.ram[Registers::S as int]) != Registers::N1,
    ensures
        ({
            let t = run(s, 15);
            let slot = addr_of(s.ram[Registers::S as int]);
            &&& t.wf()
            &&& t.pc == addr_of(l)
            &&& t.ram[slot] == neg16(target(s.pc, 45))
            &&& addr_of(neg16(t.ram[slot])) == wrap_addr(s.pc + 45)
            &&& t.ram[Registers::S as int] == sum16(s.ram[Registers::S as int], 1)
            &&& holds_but(t.ram, jsr_code(s.pc, l), 30, 31, 34, 37)
            &&& same_outside(
                s.ram,
                t.ram,
                jsr_code(s.pc, l),
                set![Registers::A as int, Registers::S as int, slot],
            )
        }),
{
    let p = s.pc;
    let code = jsr_code(p, l);
    let sv = s.ram[Registers::S as int];
    let slot = addr_of(sv);
    lemma_jsr_shape(p, l);
    lemma_pushed(p, 45, 12);
    lemma_diffs();
    lemma_after(s, 15);
    reveal_with_fuel(after, 16);
    let c0 = standing(s.ram, p, 45);
    assert forall|i: int| 0 <= i < 45 && i != 30 && i != 31 && i != 34 && i != 37 implies (
    #[trigger] c0.words[i]) == jsr_words(p, l)[i] by {
        assert(s.ram[wrap_addr(code.base + i)] == code.words[i]);
    }
    lemma_standing(s, p, 45);
    lemma_cells(c0, 30, 31, Registers::A as int);
    lemma_cells(c0, 30, 34, Registers::S as int);
    lemma_cells(c0, 30, 37, Registers::J as int);
    lemma_cells(c0, 31, 34, Registers::N1 as int);
    lemma_cells(c0, 31, 37, slot);
    lemma_cells(c0, 34, 37, Registers::A as int);
    lemma_cells(c0, 31, 30, Registers::A as int);
    lemma_cells(c0, 34, 30, Registers::A as int);
    lemma_cells(c0, 37, 30, Registers::A as int);
    lemma_cells(c0, 30, 30, Registers::N1 as int);
    lemma_cells(c0, 30, 30, slot);
    lemma_cells(c0, 31, 30, Registers::S as int);
    lemma_cells(c0, 31, 30, Registers::J as int);
    lemma_cells(c0, 34, 30, Registers::S as int);
    lemma_cells(c0, 34, 30, Registers::J as int);
    lemma_cells(c0, 34, 30, Registers::N1 as int);
    lemma_cells(c0, 34, 30, slot);
    lemma_cells(c0, 37, 30, Registers::S as int);
    lemma_cells(c0, 37, 30, Registers::N1 as int);
    lemma_cells(c0, 37, 30, slot);
    lemma_cells(c0, 33, 30, Registers::A as int);
    lemma_cells(c0, 33, 31, slot);
    lemma_cells(c0, 33, 34, Registers::S as int);
    lemma_cells(c0, 33, 37, Registers::S as int);
    let s1 = exec(s);
    let s2 = exec(s1);
    let s3 = exec(s2);
    let s4 = exec(s3);
    let s5 = exec(s4);
    let s6 = exec(s5);
    let s7 = exec(s6);
    let s8 = exec(s7);
    let s9 = exec(s8);
    let s10 = exec(s9);
    let s11 = exec(s10);
    let s12 = exec(s11);
    let s13 = exec(s12);
    let s14 = exec(s13);
    let s15 = exec(s14);
    lemma_read(s, c0, 0, 30);
    lemma_patch(s, c0, 0, 30);
    let c1 = c0.patch(30, 0);
    lemma_read(s1, c1, 1, 31);
    lemma_patch(s1, c1, 1, 31);
    let c2 = c1.patch(31, 0);
    lemma_read(s2, c2, 2, 34);
    lemma_patch(s2, c2, 2, 34);
    let c3 = c2.patch(34, 0);
    lemma_read(s3, c3, 3, 37);
    lemma_patch(s3, c3, 3, 37);
    let c4 = c3.patch(37, 0);
    assert(at(s4, c4, 4));
    lemma_next(s4, c4, 4);
    lemma_next(s5, c4, 5);
    assert(s6.ram[Registers::A as int] == sub16(0, sv));
    lemma_patch(s6, c4, 6, 30);
    let c5 = c4.patch(30, sv);
    assert(at(s7, c5, 7));
    lemma_patch(s7, c5, 7, 31);
    let c6 = c5.patch(31, sv);
    lemma_patch(s8, c6, 8, 34);
    let c7 = c6.patch(34, sv);
    lemma_patch(s9, c7, 9, 37);
    let c8 = c7.patch(37, sv);
    assert(at(s10, c8, 10));
    lemma_next(s10, c8, 10);
    lemma_read(s11, c8, 11, 33);
    lemma_next(s11, c8, 11);
    lemma_next(s12, c8, 12);
    assert(s13.ram[slot] == neg16(target(p, 45)));
    lemma_next(s13, c8, 13);
    lemma_exit(s14, c8, 14);
    assert forall|i: int|
        0 <= i < code.words.len() && i != 30 && i != 31 && i != 34 && i != 37 implies s15.ram[wrap_addr(
        code.base + i,
    )] == #[trigger] code.words[i] by {
        assert(s15.ram[wrap_addr(c8.base + i)] == c8.words[i]);
    }
}

/// `ret` moves the register S back by one and takes control to the address
/// whose negation the stack slot holds that S then points to: the address
/// behind the call that pushed it. It may run again and again. It changes no
/// cell outside itself but S and the scratch register A. The register P1
/// must hold 1, and the stack slot must be none of the registers used.
#[verifier::rlimit(100)]
pub proof fn law_ret(s: State)
    requires
        s.wf(),
        holds_but(s.ram, ret_code(s.pc), 18, 23, 23, 23),
        s.ram[Registers::P1 as int] == 1,
        free(ret_code(s.pc), Registers::A as int),
        free(ret_code(s.pc), Registers::S as int),
        free(ret_code(s.pc), Registers::P1 as int),
        free(ret_code(s.pc), addr_of(sub16(s.ram[Registers::S as int], 1))),
        addr_of(sub16(s.ram[Registers::S as int], 1)) != Registers::A,
        addr_of(sub16(s.ram[Registers::S as int], 1)) != Registers::S,
    ensures
        ({
            let t = run(s, 8);
            let slot = addr_of(sub16(s.ram[Registers::S as int], 1));
            &&& t.wf()
            &&& t.pc == addr_of(neg16(s.ram[slot]))
            &&& t.ram[Registers::S as int] == sub16(s.ram[Registers::S as int], 1)
            &&& holds_but(t.ram, ret_code(s.pc), 18, 23, 23, 23)
            &&& same_outside(
                s.ram,
                t.ram,
                ret_code(s.pc),
                set![Registers::A as int, Registers::S as int],
            )
        }),
{
    let p = s.pc;
    let code = ret_code(p);
    let sv = s.ram[Registers::S as int];
    let top = sub16(sv, 1);
    let slot = addr_of(top);
    let r = s.ram[slot];
    lemma_ret_shape(p);
    lemma_diffs();
    lemma_after(s, 8);
    reveal_with_fuel(after, 9);
    let c0 = standing(s.ram, p, 24);
    assert forall|i: int| 0 <= i < 24 && i != 18 && i != 23 implies (#[trigger] c0.words[i])
        == ret_words(p)[i] by {
        assert(s.ram[wrap_addr(code.base + i)] == code.words[i]);
    }
    lemma_standing(s, p, 24);
    lemma_cells(c0, 18, 23, Registers::A as int);
    lemma_cells(c0, 23, 18, Registers::A as int);
    lemma_cells(c0, 18, 23, Registers::S as int);
    lemma_cells(c0, 23, 18, Registers::S as int);
    lemma_cells(c0, 18, 23, Registers::P1 as int);
    lemma_cells(c0, 23, 18, Registers::P1 as int);
    lemma_cells(c0, 18, 23, slot);
    lemma_cells(c0, 23, 18, slot);
    let s1 = exec(s);
    let s2 = exec(s1);
    let s3 = exec(s2);
    let s4 = exec(s3);
    let s5 = exec(s4);
    let s6 = exec(s5);
    let s7 = exec(s6);
    let s8 = exec(s7);
    lemma_read(s, c0, 0, 18);
    lemma_patch(s, c0, 0, 18);
    let c1 = c0.patch(18, 0);
    lemma_read(s1, c1, 1, 23);
    lemma_patch(s1, c1, 1, 23);
    let c2 = c1.patch(23, 0);
    assert(at(s2, c2, 2));
    lemma_next(s2, c2, 2);
    lemma_next(s3, c2, 3);
    lemma_next(s4, c2, 4);
    assert(s5.ram[Registers::A as int] == sub16(0, top));
    lemma_patch(s5, c2, 5, 18);
    let c3 = c2.patch(18, top);
    assert(at(s6, c3, 6));
    assert(s6.ram[slot] == r);
    lemma_patch(s6, c3, 6, 23);
    let c4 = c3.patch(23, neg16(r));
    assert(at(s7, c4, 7));
    lemma_exit(s7, c4, 7);
    assert forall|i: int| 0 <= i < code.words.len() && i != 18 && i != 23 implies s8.ram[wrap_addr(
        code.base + i,
    )] == #[trigger] code.words[i] by {
        assert(s8.ram[wrap_addr(c4.base + i)] == c4.words[i]);
    }
}

/// The words of `cll` with the four words that it writes into itself
/// holding `x`.
pub open spec fn cll_filled(p: int, l: i16, v: i16, x: i16) -> Seq<i16> {
    cll_words(p, l, v).update(39, x).update(40, x).update(43, x).update(46, x)
}

/// What the proofs about `cll` ask of the cells that it uses.
pub open spec fn cll_ready(s: State, code: Code, slot: int) -> bool {
    &&& s.ram[Registers::N1 as int] == -1
    &&& s.ram[Registers::K as int] == 15
    &&& free(code, Registers::A as int)
    &&& free(code, Registers::B as int)
    &&& free(code, Registers::A1 as int)
    &&& free(code, Registers::S as int)
    &&& free(code, Registers::K as int)
    &&& free(code, Registers::N1 as int)
    &&& free(code, slot)
    &&& slot != Registers::A
    &&& slot != Registers::B
    &&& slot != Registers::A1
    &&& slot != Registers::S
    &&& slot != Registers::K
    &&& slot != Registers::N1
    &&& 0 <= slot < 65536
}

/// The first seven steps of `cll`: A1 is cleared, B takes the negated
/// argument, and the four words that the code writes into itself are cleared.
#[verifier::rlimit(100)]
pub proof fn lemma_cll_opens(s: State, c0: Code, l: i16, v: i16, slot: int)
    requires
        at(s, c0, 0),
        c0.words.len() == 57,
        forall|i: int|
            0 <= i < 57 && i != 39 && i != 40 && i != 43 && i != 46 ==> (#[trigger] c0.words[i])
                == cll_words(c0.base, l, v)[i],
        cll_ready(s, c0, slot),
        addr_of(v) != Registers::A1,
        addr_of(v) != Registers::B,
    ensures
        ({
            let t = after(s, 7);
            let c = Code { base: c0.base, words: cll_filled(c0.base, l, v, 0) };
            &&& at(t, c, 7)
            &&& t.ram[Registers::B as int] == sub16(0, s.ram[addr_of(v)])
            &&& t.ram[Registers::A1 as int] == 0
            &&& same_outside(s.ram, t.ram, c0, set![Registers::A1 as int, Registers::B as int])
        }),
{
    let p = c0.base;
    lemma_diffs();
    reveal_with_fuel(after, 8);
    lemma_holes(c0, 39, 40, 43, 46, Registers::A1 as int);
    lemma_holes(c0, 39, 40, 43, 46, Registers::B as int);
    let s1 = exec(s);
    let s2 = exec(s1);
    let s3 = exec(s2);
    let s4 = exec(s3);
    let s5 = exec(s4);
    let s6 = exec(s5);
    let s7 = exec(s6);
    lemma_next(s, c0, 0);
    lemma_next(s1, c0, 1);
    lemma_next(s2, c0, 2);
    lemma_read(s3, c0, 3, 39);
    lemma_patch(s3, c0, 3, 39);
    let c1 = c0.patch(39, 0);
    lemma_read(s4, c1, 4, 40);
    lemma_patch(s4, c1, 4, 40);
    let c2 = c1.patch(40, 0);
    lemma_read(s5, c2, 5, 43);
    lemma_patch(s5, c2, 5, 43);
    let c3 = c2.patch(43, 0);
    lemma_read(s6, c3, 6, 46);
    lemma_patch(s6, c3, 6, 46);
    let c4 = c3.patch(46, 0);
    assert(at(s7, c4, 7));
    assert(c4.words =~= cll_filled(p, l, v, 0));
}

/// The next six steps of `cll`: the four words take the value of S.
#[verifier::rlimit(100)]
pub proof fn lemma_cll_aims(s: State, c: Code, l: i16, v: i16, slot: int)
    requires
        at(s, c, 7),
        c.words == cll_filled(c.base, l, v, 0),
        cll_ready(s, c, slot),
    ensures
        ({
            let t = after(s, 6);
            let d = Code { base: c.base, words: cll_filled(c.base, l, v, s.ram[Registers::S as int]) };
            &&& at(t, d, 13)
            &&& same_outside(s.ram, t.ram, c, set![Registers::A as int])
        }),
{
    let p = c.base;
    let sv = s.ram[Registers::S as int];
    lemma_diffs();
    reveal_with_fuel(after, 7);
    lemma_holes(c, 39, 40, 43, 46, Registers::A as int);
    lemma_holes(c, 39, 40, 43, 46, Registers::S as int);
    let s1 = exec(s);
    let s2 = exec(s1);
    let s3 = exec(s2);
    let s4 = exec(s3);
    let s5 = exec(s4);
    let s6 = exec(s5);
    lemma_next(s, c, 7);
    lemma_next(s1, c, 8);
    assert(s2.ram[Registers::A as int] == sub16(0, sv));
    lemma_patch(s2, c, 9, 39);
    let c5 = c.patch(39, sv);
    assert(at(s3, c5, 10));
    lemma_patch(s3, c5, 10, 40);
    let c6 = c5.patch(40, sv);
    lemma_patch(s4, c6, 11, 43);
    let c7 = c6.patch(43, sv);
    lemma_patch(s5, c7, 12, 46);
    let c8 = c7.patch(46, sv);
    assert(at(s6, c8, 13));
    assert(c8.words =~= cll_filled(p, l, v, sv));
}

/// The last six steps of `cll`: the return address is pushed, S moves on, A1
/// takes the argument, and control goes to the callee.
#[verifier::rlimit(100)]
pub proof fn lemma_cll_leaves(s: State, d: Code, l: i16, v: i16, slot: int)
    requires
        at(s, d, 13),
        d.words == cll_filled(d.base, l, v, s.ram[Registers::S as int]),
        slot == addr_of(s.ram[Registers::S as int]),
        cll_ready(s, d, slot),
    ensures
        ({
            let t = after(s, 6);
            &&& t.wf()
            &&& holds(t.ram, d)
            &&& t.pc == addr_of(l)
            &&& t.ram[slot] == neg16(target(d.base, 57))
            &&& t.ram[Registers::S as int] == sum16(s.ram[Registers::S as int], 1)
            &&& t.ram[Registers::A1 as int] == sub16(s.ram[Registers::A1 as int], s.ram[Registers::B as int])
            &&& same_outside(
                s.ram,
                t.ram,
                d,
                set![Registers::A as int, Registers::A1 as int, Registers::S as int, slot],
            )
        }),
{
    let p = d.base;
    lemma_pushed(p, 57, 15);
    lemma_diffs();
    reveal_with_fuel(after, 7);
    lemma_cells(d, 42, 39, slot);
    lemma_cells(d, 42, 39, Registers::S as int);
    lemma_cells(d, 42, 39, Registers::A1 as int);
    lemma_cells(d, 42, 39, Registers::A as int);
    let s1 = exec(s);
    let s2 = exec(s1);
    let s3 = exec(s2);
    let s4 = exec(s3);
    let s5 = exec(s4);
    let s6 = exec(s5);
    lemma_next(s, d, 13);
    lemma_read(s1, d, 14, 42);
    lemma_next(s1, d, 14);
    lemma_next(s2, d, 15);
    assert(s3.ram[slot] == neg16(target(p, 57)));
    lemma_next(s3, d, 16);
    lemma_next(s4, d, 17);
    lemma_exit(s5, d, 18);
}

/// `cll l, v` does what `jsr l` does, and leaves in the register A1 what the
/// cell v held. It may run again and again. It changes no cell outside itself
/// but the stack slot, S, A1 and the scratch registers A and B. The registers
/// N1 and K must hold -1 and 15, the stack slot must be none of the registers
/// used, and v must be neither A1 nor B.
#[verifier::rlimit(100)]
pub proof fn law_cll(s: State, l: i16, v: i16)
    requires
        s.wf(),
        holds_but(s.ram, cll_code(s.pc, l, v), 39, 40, 43, 46),
        cll_ready(s, cll_code(s.pc, l, v), addr_of(s.ram[Registers::S as int])),
        addr_of(v) != Registers::A1,
        addr_of(v) != Registers::B,
    ensures
        ({
            let t = run(s, 19);
            let slot = addr_of(s.ram[Registers::S as int]);
            &&& t.wf()
            &&& t.pc == addr_of(l)
            &&& t.ram[slot] == neg16(target(s.pc, 57))
            &&& addr_of(neg16(t.ram[slot])) == wrap_addr(s.pc + 57)
            &&& t.ram[Registers::S as int] == sum16(s.ram[Registers::S as int], 1)
            &&& t.ram[Registers::A1 as int] == s.ram[addr_of(v)]
            &&& holds_but(t.ram, cll_code(s.pc, l, v), 39, 40, 43, 46)
            &&& same_outside(
                s.ram,
                t.ram,
                cll_code(s.pc, l, v),
                set![
                    Registers::A as int,
                    Registers::B as int,
                    Registers::A1 as int,
                    Registers::S as int,
                    slot,
                ],
            )
        }),
{
    let p = s.pc;
    let code = cll_code(p, l, v);
    let sv = s.ram[Registers::S as int];
    let slot = addr_of(sv);
    let av = s.ram[addr_of(v)];
    lemma_cll_shape(p, l, v);
    lemma_pushed(p, 57, 15);
    lemma_after(s, 19);
    lemma_after_sum(s, 7, 12);
    lemma_after_sum(after(s, 7), 6, 6);
    let c0 = standing(s.ram, p, 57);
    assert forall|i: int| 0 <= i < 57 && i != 39 && i != 40 && i != 43 && i != 46 implies (
    #[trigger] c0.words[i]) == cll_words(p, l, v)[i] by {
        assert(s.ram[wrap_addr(code.base + i)] == code.words[i]);
    }
    lemma_standing(s, p, 57);
    assert(cll_ready(s, c0, slot));
    lemma_cll_opens(s, c0, l, v, slot);
    let t1 = after(s, 7);
    let c = Code { base: p, words: cll_filled(p, l, v, 0) };
    lemma_leave(t1, c, 7);
    assert(t1.ram[Registers::N1 as int] == -1);
    assert(t1.ram[Registers::K as int] == 15);
    assert(t1.ram[Registers::S as int] == sv);
    assert(cll_ready(t1, c, slot));
    lemma_cll_aims(t1, c, l, v, slot);
    let t2 = after(t1, 6);
    let d = Code { base: p, words: cll_filled(p, l, v, sv) };
    lemma_leave(t2, d, 13);
    assert(t2.ram[Registers::N1 as int] == -1);
    assert(t2.ram[Registers::K as int] == 15);
    assert(t2.ram[Registers::S as int] == sv);
    assert(t2.ram[Registers::A1 as int] == t1.ram[Registers::A1 as int]);
    assert(t2.ram[Registers::B as int] == sub16(0, av));
    assert(cll_ready(t2, d, slot));
    lemma_cll_leaves(t2, d, l, v, slot);
    let t3 = after(t2, 6);
    assert(t3 == run(s, 19));
    lemma_wrapped_words(0, av);
    assert(same_outside(
        s.ram,
        t3.ram,
        code,
        set![
            Registers::A as int,
            Registers::B as int,
            Registers::A1 as int,
            Registers::S as int,
            slot,
        ],
    )) by {
        assert forall|j: int|
            0 <= j < s.ram.len() && free(code, j) && j != Registers::A && j != Registers::B && j
                != Registers::A1 && j != Registers::S && j != slot implies #[trigger] t3.ram[j]
            == s.ram[j] by {
            assert(free(c0, j) && free(c, j) && free(d, j));
            assert(t1.ram[j] == s.ram[j]);
            assert(t2.ram[j] == t1.ram[j]);
            assert(t3.ram[j] == t2.ram[j]);
        }
    }
    assert forall|i: int|
        0 <= i < code.words.len() && i != 39 && i != 40 && i != 43 && i != 46 implies t3.ram[wrap_addr(
        code.base + i,
    )] == #[trigger] code.words[i] by {
        assert(t3.ram[wrap_addr(d.base + i)] == d.words[i]);
    }
}

/// A return lands behind the call: if `jsr` runs in state `s`, and `ret`
/// runs later in a state `u` in which S and the stack slot hold what the
/// call left there, then control arrives at the address behind the `jsr`,
/// and S is back where it was before the call.
pub proof fn law_return_lands_behind_call(s: State, l: i16, u: State)
    requires
        s.wf(),
        holds_but(s.ram, jsr_code(s.pc, l), 30, 31, 34, 37),
        s.ram[Registers::N1 as int] == -1,
        s.ram[Registers::J as int] == 12,
        free(jsr_code(s.pc, l), Registers::A as int),
        free(jsr_code(s.pc, l), Registers::S as int),
        free(jsr_code(s.pc, l), Registers::J as int),
        free(jsr_code(s.pc, l), Registers::N1 as int),
        free(jsr_code(s.pc, l), addr_of(s.ram[Registers::S as int])),
        addr_of(s.ram[Registers::S as int]) != Registers::A,
        addr_of(s.ram[Registers::S as int]) != Registers::S,
        addr_of(s.ram[Registers::S as int]) != Registers::J,
        addr_of(s.ram[Registers::S as int]) != Registers::N1,
        u.wf(),
        holds_but(u.ram, ret_code(u.pc), 18, 23, 23, 23),
        u.ram[Registers::P1 as int] == 1,
        free(ret_code(u.pc), Registers::A as int),
        free(ret_code(u.pc), Registers::S as int),
        free(ret_code(u.pc), Registers::P1 as int),
        free(ret_code(u.pc), addr_of(s.ram[Registers::S as int])),
        u.ram[Registers::S as int] == run(s, 15).ram[Registers::S as int],
        u.ram[addr_of(s.ram[Registers::S as int])] == run(s, 15).ram[addr_of(
            s.ram[Registers::S as int],
        )],
    ensures
        run(u, 8).pc == wrap_addr(s.pc + 45),
        run(u, 8).ram[Registers::S as int] == s.ram[Registers::S as int],
{
    law_jsr(s, l);
    law_ret(u);
}

/// A return lands behind a call with argument as well: if `cll` runs in
/// state `s`, and `ret` runs later in a state `u` in which S and the stack
/// slot hold what the call left there, then control arrives at the address
/// behind the `cll`, and S is back where it was before the call.
pub proof fn law_return_lands_behind_cll(s: State, l: i16, v: i16, u: State)
    requires
        s.wf(),
        holds_but(s.ram, cll_code(s.pc, l, v), 39, 40, 43, 46),
        cll_ready(s, cll_code(s.pc, l, v), addr_of(s.ram[Registers::S as int])),
        addr_of(v) != Registers::A1,
        addr_of(v) != Registers::B,
        u.wf(),
        holds_but(u.ram, ret_code(u.pc), 18, 23, 23, 23),
        u.ram[Registers::P1 as int] == 1,
        free(ret_code(u.pc), Registers::A as int),
        free(ret_code(u.pc), Registers::S as int),
        free(ret_code(u.pc), Registers::P1 as int),
        free(ret_code(u.pc), addr_of(s.ram[Registers::S as int])),
        u.ram[Registers::S as int] == run(s, 19).ram[Registers::S as int],
        u.ram[addr_of(s.ram[Registers::S as int])] == run(s, 19).ram[addr_of(
            s.ram[Registers::S as int],
        )],
    ensures
        run(u, 8).pc == wrap_addr(s.pc + 57),
        run(u, 8).ram[Registers::S as int] == s.ram[Registers::S as int],
{
    law_cll(s, l, v);
    law_ret(u);
}

} // verus!
