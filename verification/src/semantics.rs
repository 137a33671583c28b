//! What each instruction does when the machine runs its code.

use vstd::prelude::*;
use crate::subleq::{State, addr_of, neg16, sub16, sum16, wrap_addr};
use crate::registers::Registers;
use crate::assembler::Assembler;
use crate::expansion::{
    Code, add_code, beq_code, bgq_code, blq_code, clr_code, dec_code, inc_code, jmp_code,
    lemma_add_shape, lemma_beq_shape, lemma_bgq_shape, lemma_blq_shape, lemma_clr_shape,
    lemma_dec_shape, lemma_inc_shape, lemma_jmp_shape, lemma_neg_shape, lemma_set_shape,
    lemma_slq_shape, lemma_slt_shape, lemma_sub_shape, neg_code, set_code, slq_code, slt_code,
    sub_code, target,
};
use crate::assembler::lemma_wrapped_sum;
use crate::stepping::{
    after, at, exec, free, holds, law_assembled_code_stands, lemma_after, lemma_branch,
    lemma_diff, lemma_diffs, lemma_earlier_code_stays, lemma_enter, lemma_exit, lemma_exit_idle,
    lemma_leave, lemma_next, lemma_placed_code_is_clear, lemma_run, lemma_run_sum, lemma_single,
    run, same_but, units,
};

verus! {

/// `clr d` leaves 0 in d, whatever d held and wherever d lies, changes no
/// other cell, and control goes on behind it.
pub proof fn law_clr(s: State, d: i16)
    requires
        s.wf(),
        holds(s.ram, clr_code(s.pc, d)),
    ensures
        s.step().ram == s.ram.update(addr_of(d), 0),
        s.step().ram[addr_of(d)] == 0,
        s.step().pc == wrap_addr(s.pc + 3),
{
    lemma_clr_shape(s.pc, d);
    lemma_single(s, clr_code(s.pc, d));
    reveal(target);
}

/// `sub d, s` leaves in d the difference of d and s, wrapped into a word,
/// changes no other cell, and control goes on behind it.
pub proof fn law_sub(s: State, d: i16, src: i16)
    requires
        s.wf(),
        holds(s.ram, sub_code(s.pc, d, src)),
    ensures
        s.step().ram == s.ram.update(addr_of(d), sub16(s.ram[addr_of(d)], s.ram[addr_of(src)])),
        s.step().pc == wrap_addr(s.pc + 3),
{
    lemma_sub_shape(s.pc, d, src);
    lemma_single(s, sub_code(s.pc, d, src));
    reveal(target);
}

/// `inc d` adds 1 to d, wrapping, changes no other cell, and control goes on
/// behind it. The register N1 must hold -1.
pub proof fn law_inc(s: State, d: i16)
    requires
        s.wf(),
        holds(s.ram, inc_code(s.pc, d)),
        s.ram[Registers::N1 as int] == -1,
    ensures
        s.step().ram == s.ram.update(addr_of(d), sum16(s.ram[addr_of(d)], 1)),
        s.step().pc == wrap_addr(s.pc + 3),
{
    lemma_inc_shape(s.pc, d);
    lemma_single(s, inc_code(s.pc, d));
    reveal(target);
}

/// `dec d` subtracts 1 from d, wrapping, changes no other cell, and control
/// goes on behind it. The register P1 must hold 1.
pub proof fn law_dec(s: State, d: i16)
    requires
        s.wf(),
        holds(s.ram, dec_code(s.pc, d)),
        s.ram[Registers::P1 as int] == 1,
    ensures
        s.step().ram == s.ram.update(addr_of(d), sub16(s.ram[addr_of(d)], 1)),
        s.step().pc == wrap_addr(s.pc + 3),
{
    lemma_dec_shape(s.pc, d);
    lemma_single(s, dec_code(s.pc, d));
    reveal(target);
}

/// `jmp l` takes control to l and clears the scratch register A.
pub proof fn law_jmp(s: State, l: i16)
    requires
        s.wf(),
        holds(s.ram, jmp_code(s.pc, l)),
    ensures
        s.step().ram == s.ram.update(Registers::A as int, 0),
        s.step().pc == addr_of(l),
{
    lemma_jmp_shape(s.pc, l);
    lemma_single(s, jmp_code(s.pc, l));
    reveal(target);
}

/// `slq a, b, l` is the primitive: b := b - a, and control goes to l if the
/// result is not positive, else behind the instruction.
pub proof fn law_slq(s: State, a: i16, b: i16, l: i16)
    requires
        s.wf(),
        holds(s.ram, slq_code(s.pc, a, b, l)),
    ensures
        s.step().ram == s.ram.update(addr_of(b), sub16(s.ram[addr_of(b)], s.ram[addr_of(a)])),
        s.step().pc == if sub16(s.ram[addr_of(b)], s.ram[addr_of(a)]) <= 0 {
            addr_of(l)
        } else {
            wrap_addr(s.pc + 3)
        },
{
    lemma_slq_shape(s.pc, a, b, l);
    lemma_single(s, slq_code(s.pc, a, b, l));
    reveal(target);
}

/// `set d, s` leaves in d what s holds, and leaves s as it was, also where d
/// and s are the same cell. It changes no other cell but the scratch register
/// A, and control goes on behind it. Where the cells differ, d is written
/// and must lie outside the code.
pub proof fn law_set(s: State, d: i16, src: i16)
    requires
        s.wf(),
        holds(s.ram, set_code(s.pc, d, src)),
        free(set_code(s.pc, d, src), Registers::A as int),
        d != src ==> free(set_code(s.pc, d, src), addr_of(d)),
        addr_of(d) != Registers::A,
        addr_of(src) != Registers::A,
    ensures
        run(s, 4).wf(),
        holds(run(s, 4).ram, set_code(s.pc, d, src)),
        run(s, 4).pc == wrap_addr(s.pc + 12),
        run(s, 4).ram[addr_of(d)] == s.ram[addr_of(src)],
        run(s, 4).ram[addr_of(src)] == s.ram[addr_of(src)],
        same_but(s.ram, run(s, 4).ram, addr_of(d), Registers::A as int, Registers::A as int),
{
    lemma_set_shape(s.pc, d, src);
    let code = set_code(s.pc, d, src);
    let s1 = exec(s);
    let s2 = exec(s1);
    let s3 = exec(s2);
    let s4 = exec(s3);
    lemma_run(s, 3);
    lemma_run(s1, 2);
    lemma_run(s2, 1);
    lemma_run(s3, 0);
    lemma_run(s4, 0);
    lemma_diffs();
    lemma_enter(s, code);
    lemma_next(s, code, 0);
    lemma_next(s1, code, 1);
    lemma_next(s2, code, 2);
    lemma_next(s3, code, 3);
    lemma_leave(s4, code, 4);
}

/// `add d, s` adds to d what s holds, wrapping. It changes no other cell but
/// the scratch register A, and control goes on behind it.
pub proof fn law_add(s: State, d: i16, src: i16)
    requires
        s.wf(),
        holds(s.ram, add_code(s.pc, d, src)),
        free(add_code(s.pc, d, src), Registers::A as int),
        free(add_code(s.pc, d, src), addr_of(d)),
        addr_of(d) != Registers::A,
        addr_of(src) != Registers::A,
    ensures
        run(s, 3).wf(),
        holds(run(s, 3).ram, add_code(s.pc, d, src)),
        run(s, 3).pc == wrap_addr(s.pc + 9),
        run(s, 3).ram[addr_of(d)] == sum16(s.ram[addr_of(d)], s.ram[addr_of(src)]),
        same_but(s.ram, run(s, 3).ram, addr_of(d), Registers::A as int, Registers::A as int),
{
    lemma_add_shape(s.pc, d, src);
    let code = add_code(s.pc, d, src);
    let v = s.ram[addr_of(src)];
    let s1 = exec(s);
    let s2 = exec(s1);
    let s3 = exec(s2);
    lemma_run(s, 2);
    lemma_run(s1, 1);
    lemma_run(s2, 0);
    lemma_run(s3, 0);
    lemma_diff(s.ram[Registers::A as int], s.ram[Registers::A as int]);
    lemma_diff(0, v);
    lemma_diff(s.ram[addr_of(d)], sub16(0, v));
    lemma_diff(sub16(0, v), sub16(0, v));
    lemma_enter(s, code);
    lemma_next(s, code, 0);
    lemma_next(s1, code, 1);
    lemma_next(s2, code, 2);
    lemma_leave(s3, code, 3);
}

/// `neg d` leaves in d the negation of what d held, wrapped into a word, so
/// the least word stays as it is. It changes no other cell but the scratch
/// registers A and B, and control goes on behind it.
pub proof fn law_neg(s: State, d: i16)
    requires
        s.wf(),
        holds(s.ram, neg_code(s.pc, d)),
        free(neg_code(s.pc, d), Registers::A as int),
        free(neg_code(s.pc, d), Registers::B as int),
        free(neg_code(s.pc, d), addr_of(d)),
        addr_of(d) != Registers::A,
        addr_of(d) != Registers::B,
    ensures
        run(s, 6).wf(),
        holds(run(s, 6).ram, neg_code(s.pc, d)),
        run(s, 6).pc == wrap_addr(s.pc + 18),
        run(s, 6).ram[addr_of(d)] == neg16(s.ram[addr_of(d)]),
        s.ram[addr_of(d)] == -32768 ==> run(s, 6).ram[addr_of(d)] == -32768,
        s.ram[addr_of(d)] != -32768 ==> run(s, 6).ram[addr_of(d)] == -s.ram[addr_of(d)],
        same_but(s.ram, run(s, 6).ram, addr_of(d), Registers::A as int, Registers::B as int),
{
    lemma_neg_shape(s.pc, d);
    let code = neg_code(s.pc, d);
    let v = s.ram[addr_of(d)];
    let s1 = exec(s);
    let s2 = exec(s1);
    let s3 = exec(s2);
    let s4 = exec(s3);
    let s5 = exec(s4);
    let s6 = exec(s5);
    lemma_run(s, 5);
    lemma_run(s1, 4);
    lemma_run(s2, 3);
    lemma_run(s3, 2);
    lemma_run(s4, 1);
    lemma_run(s5, 0);
    lemma_run(s6, 0);
    lemma_diff(v, v);
    lemma_diff(s.ram[Registers::A as int], s.ram[Registers::A as int]);
    lemma_diff(s.ram[Registers::B as int], s.ram[Registers::B as int]);
    lemma_diff(0, v);
    lemma_diff(0, sub16(0, v));
    lemma_enter(s, code);
    lemma_next(s, code, 0);
    lemma_next(s1, code, 1);
    lemma_next(s2, code, 2);
    lemma_next(s3, code, 3);
    lemma_next(s4, code, 4);
    lemma_next(s5, code, 5);
    lemma_leave(s6, code, 6);
}

/// `neg d` twice in a row leaves d as it was, for every word: the least word
/// is its own negation.
pub proof fn law_neg_twice(s: State, d: i16)
    requires
        s.wf(),
        holds(s.ram, neg_code(s.pc, d)),
        holds(s.ram, neg_code(wrap_addr(s.pc + 18), d)),
        free(neg_code(s.pc, d), Registers::A as int),
        free(neg_code(s.pc, d), Registers::B as int),
        free(neg_code(s.pc, d), addr_of(d)),
        free(neg_code(wrap_addr(s.pc + 18), d), Registers::A as int),
        free(neg_code(wrap_addr(s.pc + 18), d), Registers::B as int),
        free(neg_code(wrap_addr(s.pc + 18), d), addr_of(d)),
        addr_of(d) != Registers::A,
        addr_of(d) != Registers::B,
    ensures
        run(s, 12).ram[addr_of(d)] == s.ram[addr_of(d)],
        run(s, 12).pc == wrap_addr(s.pc + 36),
        same_but(s.ram, run(s, 12).ram, addr_of(d), Registers::A as int, Registers::B as int),
{
    let t = run(s, 6);
    let second = neg_code(wrap_addr(s.pc + 18), d);
    law_neg(s, d);
    assert forall|i: int| 0 <= i < second.words.len() implies t.ram[wrap_addr(second.base + i)]
        == #[trigger] second.words[i] by {
        assert(wrap_addr(second.base + i) != addr_of(d));
        assert(wrap_addr(second.base + i) != Registers::A);
        assert(wrap_addr(second.base + i) != Registers::B);
    }
    law_neg(t, d);
    lemma_run_sum(s, 6, 6);
    lemma_wrapped_sum(s.pc + 18, 18);
}

/// `blq d, l` takes control to l if d is not positive, else behind the
/// instruction. It leaves d as it was, wherever d lies but in the scratch
/// register A, and changes no other cell but A.
pub proof fn law_blq(s: State, d: i16, l: i16)
    requires
        s.wf(),
        holds(s.ram, blq_code(s.pc, d, l)),
        free(blq_code(s.pc, d, l), Registers::A as int),
        addr_of(d) != Registers::A,
    ensures
        run(s, 2).wf(),
        holds(run(s, 2).ram, blq_code(s.pc, d, l)),
        run(s, 2).pc == if s.ram[addr_of(d)] <= 0 {
            addr_of(l)
        } else {
            wrap_addr(s.pc + 6)
        },
        same_but(s.ram, run(s, 2).ram, Registers::A as int, Registers::A as int, Registers::A as int),
{
    lemma_blq_shape(s.pc, d, l);
    let code = blq_code(s.pc, d, l);
    let s1 = exec(s);
    let s2 = exec(s1);
    lemma_run(s, 1);
    lemma_run(s1, 0);
    lemma_run(s2, 0);
    lemma_diffs();
    lemma_enter(s, code);
    lemma_next(s, code, 0);
    lemma_exit_idle(s1, code, 1);
    if s.ram[addr_of(d)] > 0 {
        lemma_leave(s2, code, 2);
    }
}

/// The number of steps that `beq` takes on a word.
pub open spec fn beq_steps(v: i16) -> nat {
    if v > 0 {
        3
    } else {
        4
    }
}

/// `beq d, l` takes control to l if d is 0, else behind the instruction, for
/// every word in d. It leaves d as it was and changes no other cell but the
/// scratch register A; d may be any cell but A, also one of the constant
/// registers. The registers P1 and N1 must hold 1 and -1.
pub proof fn law_beq(s: State, d: i16, l: i16)
    requires
        s.wf(),
        holds(s.ram, beq_code(s.pc, d, l)),
        units(s.ram),
        free(beq_code(s.pc, d, l), Registers::A as int),
        free(beq_code(s.pc, d, l), addr_of(d)),
        addr_of(d) != Registers::A,
    ensures
        run(s, beq_steps(s.ram[addr_of(d)])).pc == if s.ram[addr_of(d)] == 0 {
            addr_of(l)
        } else {
            wrap_addr(s.pc + 18)
        },
        same_but(
            s.ram,
            run(s, beq_steps(s.ram[addr_of(d)])).ram,
            Registers::A as int,
            Registers::A as int,
            Registers::A as int,
        ),
{
    lemma_beq_shape(s.pc, d, l);
    let code = beq_code(s.pc, d, l);
    let v = s.ram[addr_of(d)];
    let s1 = exec(s);
    let s2 = exec(s1);
    let s3 = exec(s2);
    let s4 = exec(s3);
    lemma_run(s, 3);
    lemma_run(s1, 2);
    lemma_run(s2, 1);
    lemma_run(s3, 0);
    lemma_run(s, 2);
    lemma_run(s1, 1);
    lemma_run(s2, 0);
    lemma_run(s4, 0);
    lemma_diff(s.ram[Registers::A as int], s.ram[Registers::A as int]);
    lemma_diff(v, 0);
    lemma_diff(0, 0);
    lemma_diff(v, (-1) as i16);
    lemma_diff(sub16(v, (-1) as i16), 1);
    lemma_enter(s, code);
    lemma_next(s, code, 0);
    lemma_branch(s1, code, 1, 3);
    if v > 0 {
        lemma_branch(s2, code, 2, 6);
        lemma_leave(s3, code, 6);
    } else {
        lemma_branch(s2, code, 3, 5);
        if v + 1 <= 0 {
            lemma_next(s3, code, 5);
            lemma_leave(s4, code, 6);
        } else {
            lemma_exit(s3, code, 4);
        }
    }
}

/// `bgq d, l` takes control to l if d is not negative, else behind the
/// instruction, for every word in d, in three steps. It only reads d, which
/// may be any cell but the scratch register A, and changes no cell but A. The
/// register P1 must hold 1.
pub proof fn law_bgq(s: State, d: i16, l: i16)
    requires
        s.wf(),
        holds(s.ram, bgq_code(s.pc, d, l)),
        s.ram[Registers::P1 as int] == 1,
        free(bgq_code(s.pc, d, l), Registers::A as int),
        addr_of(d) != Registers::A,
    ensures
        run(s, 3).wf(),
        holds(run(s, 3).ram, bgq_code(s.pc, d, l)),
        run(s, 3).pc == if s.ram[addr_of(d)] >= 0 {
            addr_of(l)
        } else {
            wrap_addr(s.pc + 12)
        },
        same_but(s.ram, run(s, 3).ram, Registers::A as int, Registers::A as int, Registers::A as int),
{
    lemma_bgq_shape(s.pc, d, l);
    let code = bgq_code(s.pc, d, l);
    let v = s.ram[addr_of(d)];
    let s1 = exec(s);
    let s2 = exec(s1);
    let s3 = exec(s2);
    lemma_run(s, 2);
    lemma_run(s1, 1);
    lemma_run(s2, 0);
    lemma_run(s3, 0);
    lemma_diffs();
    lemma_enter(s, code);
    lemma_next(s, code, 0);
    lemma_branch(s1, code, 1, 3);
    if sub16(0, v) <= 0 {
        lemma_exit(s2, code, 3);
        if v < 0 {
            lemma_leave(s3, code, 4);
        }
    } else {
        lemma_branch(s2, code, 2, 4);
        lemma_leave(s3, code, 4);
    }
}

/// The number of steps that `slt` takes on two words.
pub open spec fn slt_steps(d: i16, s: i16) -> nat {
    if d > 0 {
        if s <= 0 {
            5
        } else if s - d <= 0 {
            8
        } else {
            10
        }
    } else if s > 0 {
        7
    } else if s == 0 {
        9
    } else if s - d <= 0 {
        10
    } else {
        12
    }
}

/// `slt d, s` leaves 1 in d if d is less than s as signed words, else 0, for
/// every pair of words, also where their difference does not fit a word. It
/// leaves s as it was and changes no other cell but the scratch registers A
/// and B, and control goes on behind it; where d and s are the same cell, that
/// cell ends as 0. The registers P1 and N1 must hold 1 and -1; s may be one
/// of them, d may not, since the result is written there.
#[verifier::rlimit(100)]
pub proof fn law_slt(s: State, d: i16, src: i16)
    requires
        s.wf(),
        holds(s.ram, slt_code(s.pc, d, src)),
        units(s.ram),
        free(slt_code(s.pc, d, src), Registers::A as int),
        free(slt_code(s.pc, d, src), Registers::B as int),
        free(slt_code(s.pc, d, src), addr_of(d)),
        free(slt_code(s.pc, d, src), addr_of(src)),
        addr_of(d) != Registers::A,
        addr_of(d) != Registers::B,
        addr_of(d) != Registers::P1,
        addr_of(d) != Registers::N1,
        addr_of(src) != Registers::A,
        addr_of(src) != Registers::B,
    ensures
        ({
            let t = run(s, slt_steps(s.ram[addr_of(d)], s.ram[addr_of(src)]));
            &&& t.wf()
            &&& t.pc == wrap_addr(s.pc + 54)
            &&& t.ram[addr_of(d)] == if s.ram[addr_of(d)] < s.ram[addr_of(src)] {
                1i16
            } else {
                0i16
            }
            &&& same_but(s.ram, t.ram, addr_of(d), Registers::A as int, Registers::B as int)
        }),
{
    let code = slt_code(s.pc, d, src);
    let dv = s.ram[addr_of(d)];
    let sv = s.ram[addr_of(src)];
    lemma_slt_shape(s.pc, d, src);
    lemma_diffs();
    lemma_after(s, slt_steps(dv, sv));
    reveal_with_fuel(after, 13);
    let s1 = exec(s);
    let s2 = exec(s1);
    let s3 = exec(s2);
    let s4 = exec(s3);
    let s5 = exec(s4);
    let s6 = exec(s5);
    let s7 = exec(s6);
    let s8 = exec(s7);
    let s9 = exec(s8);
    let s10 = exec(s9);
    let s11 = exec(s10);
    let s12 = exec(s11);
    lemma_enter(s, code);
    lemma_next(s, code, 0);
    lemma_next(s1, code, 1);
    lemma_branch(s2, code, 2, 8);
    if dv > 0 {
        lemma_branch(s3, code, 3, 15);
        if sv <= 0 {
            lemma_branch(s4, code, 15, 18);
            lemma_leave(s5, code, 18);
        } else {
            lemma_compare(s4, code, d, src);
            if sv - dv <= 0 {
                lemma_leave(s8, code, 18);
            } else {
                lemma_leave(s10, code, 18);
            }
        }
    } else {
        lemma_branch(s3, code, 8, 10);
        if sv > 0 {
            lemma_branch(s4, code, 9, 16);
            lemma_next(s5, code, 16);
            lemma_next(s6, code, 17);
            lemma_leave(s7, code, 18);
        } else {
            lemma_branch(s4, code, 10, 14);
            if sv == 0 {
                lemma_next(s5, code, 11);
                lemma_branch(s6, code, 12, 16);
                if dv < 0 {
                    lemma_next(s7, code, 16);
                    lemma_next(s8, code, 17);
                    lemma_leave(s9, code, 18);
                } else {
                    lemma_branch(s7, code, 13, 15);
                    lemma_branch(s8, code, 15, 18);
                    lemma_leave(s9, code, 18);
                }
            } else {
                lemma_branch(s5, code, 14, 4);
                lemma_compare(s6, code, d, src);
                if sv - dv <= 0 {
                    lemma_leave(s10, code, 18);
                } else {
                    lemma_leave(s12, code, 18);
                }
            }
        }
    }
}

/// The part of `slt` that compares two words whose difference fits a word:
/// from triple 4 on, with A and B zero.
pub proof fn lemma_compare(s: State, code: Code, d: i16, src: i16)
    requires
        at(s, code, 4),
        code == slt_code(code.base, d, src),
        s.ram[Registers::A as int] == 0,
        s.ram[Registers::B as int] == 0,
        -32768 <= s.ram[addr_of(src)] - s.ram[addr_of(d)] <= 32767,
        s.ram[Registers::N1 as int] == -1,
        free(code, Registers::A as int),
        free(code, Registers::B as int),
        free(code, addr_of(d)),
        addr_of(d) != Registers::A,
        addr_of(d) != Registers::B,
        addr_of(d) != Registers::N1,
        addr_of(src) != Registers::A,
        addr_of(src) != Registers::B,
    ensures
        ({
            let n: nat = if s.ram[addr_of(src)] - s.ram[addr_of(d)] <= 0 {
                4
            } else {
                6
            };
            let t = after(s, n);
            &&& at(t, code, 18)
            &&& t.ram[addr_of(d)] == if s.ram[addr_of(d)] < s.ram[addr_of(src)] {
                1i16
            } else {
                0i16
            }
            &&& same_but(s.ram, t.ram, addr_of(d), Registers::A as int, Registers::B as int)
        }),
{
    lemma_slt_shape(code.base, d, src);
    lemma_diffs();
    reveal_with_fuel(after, 7);
    let s1 = exec(s);
    let s2 = exec(s1);
    let s3 = exec(s2);
    let s4 = exec(s3);
    let s5 = exec(s4);
    let s6 = exec(s5);
    lemma_next(s, code, 4);
    lemma_next(s1, code, 5);
    lemma_branch(s2, code, 6, 15);
    if s.ram[addr_of(src)] - s.ram[addr_of(d)] <= 0 {
        lemma_branch(s3, code, 15, 18);
    } else {
        lemma_branch(s3, code, 7, 16);
        lemma_next(s4, code, 16);
        lemma_next(s5, code, 17);
    }
}

/// Whether `len` words from `at` on lie above the register block and below
/// the end of the memory.
pub open spec fn placed(at: int, len: int) -> bool {
    Registers::DATA_OFFSET <= at && at + len <= 65536
}

/// Whether a cell lies outside the `len` words from `at` on.
pub open spec fn apart(cell: int, at: int, len: int) -> bool {
    cell < at || at + len <= cell
}

/// The machine that starts on the image of an assembler, at an address.
pub open spec fn started(image: Assembler, pc: int) -> State {
    State { ram: image.data@, pc }
}

/// `set d, s` as the assembler writes it above the register block: a machine
/// that runs the image from where the code was written leaves in d what s
/// holds, leaves s as it was, changes no other cell but A, and goes on behind
/// the code. Where d and s differ, d must lie outside the twelve words.
pub proof fn law_set_as_assembled(before: Assembler, image: Assembler, d: i16, src: i16)
    requires
        image.wrote(before, set_code(before.offset as int, d, src)),
        placed(before.offset as int, 12),
        d != src ==> apart(addr_of(d), before.offset as int, 12),
        addr_of(d) != Registers::A,
        addr_of(src) != Registers::A,
    ensures
        ({
            let m = started(image, before.offset as int);
            let t = run(m, 4);
            &&& t.pc == wrap_addr(before.offset + 12)
            &&& t.ram[addr_of(d)] == m.ram[addr_of(src)]
            &&& t.ram[addr_of(src)] == m.ram[addr_of(src)]
            &&& same_but(m.ram, t.ram, addr_of(d), Registers::A as int, Registers::A as int)
        }),
{
    let code = set_code(before.offset as int, d, src);
    lemma_set_shape(before.offset as int, d, src);
    law_assembled_code_stands(before, image, code);
    lemma_placed_code_is_clear(code, Registers::A as int);
    if d != src {
        lemma_placed_code_is_clear(code, addr_of(d));
    }
    law_set(started(image, before.offset as int), d, src);
}

/// `neg d` as the assembler writes it above the register block: a machine
/// that runs the image from where the code was written leaves in d the
/// wrapped negation of what d held, changes no other cell but A and B, and
/// goes on behind the code. d must lie outside the eighteen words.
pub proof fn law_neg_as_assembled(before: Assembler, image: Assembler, d: i16)
    requires
        image.wrote(before, neg_code(before.offset as int, d)),
        placed(before.offset as int, 18),
        apart(addr_of(d), before.offset as int, 18),
        addr_of(d) != Registers::A,
        addr_of(d) != Registers::B,
    ensures
        ({
            let m = started(image, before.offset as int);
            let t = run(m, 6);
            &&& t.pc == wrap_addr(before.offset + 18)
            &&& t.ram[addr_of(d)] == neg16(m.ram[addr_of(d)])
            &&& same_but(m.ram, t.ram, addr_of(d), Registers::A as int, Registers::B as int)
        }),
{
    let code = neg_code(before.offset as int, d);
    lemma_neg_shape(before.offset as int, d);
    law_assembled_code_stands(before, image, code);
    lemma_placed_code_is_clear(code, Registers::A as int);
    lemma_placed_code_is_clear(code, Registers::B as int);
    lemma_placed_code_is_clear(code, addr_of(d));
    law_neg(started(image, before.offset as int), d);
}

/// `neg d` twice as the assembler writes it above the register block, one
/// behind the other: a machine that runs the image from the first leaves d
/// as it was, for every word, and goes on behind the second. d must lie
/// outside the thirty-six words.
#[verifier::rlimit(100)]
pub proof fn law_neg_twice_as_assembled(
    before: Assembler,
    between: Assembler,
    image: Assembler,
    d: i16,
)
    requires
        between.wrote(before, neg_code(before.offset as int, d)),
        image.wrote(between, neg_code(before.offset + 18, d)),
        placed(before.offset as int, 36),
        apart(addr_of(d), before.offset as int, 36),
        addr_of(d) != Registers::A,
        addr_of(d) != Registers::B,
    ensures
        ({
            let m = started(image, before.offset as int);
            let t = run(m, 12);
            &&& t.pc == wrap_addr(before.offset + 36)
            &&& t.ram[addr_of(d)] == m.ram[addr_of(d)]
            &&& same_but(m.ram, t.ram, addr_of(d), Registers::A as int, Registers::B as int)
        }),
{
    let o = before.offset as int;
    let first = neg_code(o, d);
    let second = neg_code(o + 18, d);
    lemma_neg_shape(o, d);
    lemma_neg_shape(o + 18, d);
    law_assembled_code_stands(before, between, first);
    law_assembled_code_stands(between, image, second);
    lemma_placed_code_is_clear(first, Registers::A as int);
    lemma_placed_code_is_clear(first, Registers::B as int);
    lemma_placed_code_is_clear(first, addr_of(d));
    lemma_placed_code_is_clear(second, Registers::A as int);
    lemma_placed_code_is_clear(second, Registers::B as int);
    lemma_placed_code_is_clear(second, addr_of(d));
    lemma_earlier_code_stays(first, second, between.data@, image.data@);
    assert(wrap_addr(o + 18) == o + 18);
    law_neg_twice(started(image, o), d);
}

/// `blq d, l` as the assembler writes it above the register block: a machine
/// that runs the image from where the code was written goes to l if d is not
/// positive, else behind the code, and changes no cell but A; d may be any
/// cell but A.
pub proof fn law_blq_as_assembled(before: Assembler, image: Assembler, d: i16, l: i16)
    requires
        image.wrote(before, blq_code(before.offset as int, d, l)),
        placed(before.offset as int, 6),
        addr_of(d) != Registers::A,
    ensures
        ({
            let m = started(image, before.offset as int);
            let t = run(m, 2);
            &&& t.pc == if m.ram[addr_of(d)] <= 0 {
                addr_of(l)
            } else {
                wrap_addr(before.offset + 6)
            }
            &&& same_but(
                m.ram,
                t.ram,
                Registers::A as int,
                Registers::A as int,
                Registers::A as int,
            )
        }),
{
    let code = blq_code(before.offset as int, d, l);
    lemma_blq_shape(before.offset as int, d, l);
    law_assembled_code_stands(before, image, code);
    lemma_placed_code_is_clear(code, Registers::A as int);
    law_blq(started(image, before.offset as int), d, l);
}

} // verus!
