//! Running code on the machine, step by step: the notions and lemmas that
//! the laws about the instructions are proved with.

use vstd::prelude::*;
use crate::subleq::{State, addr_of, lemma_wrapped_words, sub16, word_of, wrap_addr};
use crate::registers::Registers;
use crate::expansion::{stored, target, Code};
use crate::assembler::{lemma_wrapped_sum, Assembler};

verus! {

/// The state after `n` steps.
pub open spec fn run(s: State, n: nat) -> State
    decreases n,
{
    if n == 0 {
        s
    } else {
        run(s.step(), (n - 1) as nat)
    }
}

/// Whether the words of a code stand in a memory, from the code's base on.
pub open spec fn holds(ram: Seq<i16>, code: Code) -> bool {
    forall|i: int|
        0 <= i < code.words.len() ==> ram[wrap_addr(code.base + i)] == #[trigger] code.words[i]
}

/// Whether a cell lies outside the `len` cells from `base` on.
pub open spec fn outside(base: int, len: nat, cell: int) -> bool {
    forall|i: int| 0 <= i < len ==> #[trigger] wrap_addr(base + i) != cell
}

/// Whether a cell lies outside a code.
pub open spec fn free(code: Code, cell: int) -> bool {
    outside(code.base, code.words.len(), cell)
}

/// Whether two memories agree outside three cells.
pub open spec fn same_but(before: Seq<i16>, after: Seq<i16>, x: int, y: int, z: int) -> bool {
    &&& after.len() == before.len()
    &&& forall|j: int|
        0 <= j < before.len() && j != x && j != y && j != z ==> #[trigger] after[j] == before[j]
}

/// Whether the constant registers 1 and -1 hold their values.
pub open spec fn units(ram: Seq<i16>) -> bool {
    ram[Registers::P1 as int] == 1 && ram[Registers::N1 as int] == -1
}

/// One step, kept folded in the proofs below.
#[verifier::opaque]
pub open spec fn exec(s: State) -> State {
    s.step()
}

/// The difference of two words as the machine computes it, kept folded in
/// the proofs below.
#[verifier::opaque]
pub open spec fn diff(x: i16, y: i16) -> i16 {
    word_of(x - y)
}

/// A valid state whose memory holds a code and whose program counter stands
/// at triple `k` of that code.
#[verifier::opaque]
pub open spec fn at(s: State, code: Code, k: int) -> bool {
    s.wf() && holds(s.ram, code) && s.pc == wrap_addr(code.base + 3 * k)
}

/// A valid state whose memory holds a code and whose program counter is the
/// address that a word names.
#[verifier::opaque]
pub open spec fn lands(s: State, code: Code, c: i16) -> bool {
    s.wf() && holds(s.ram, code) && s.pc == addr_of(c)
}

/// A state whose program counter is the base of a code in its memory stands
/// at the code's first triple.
pub proof fn lemma_enter(s: State, code: Code)
    requires
        s.wf(),
        holds(s.ram, code),
        s.pc == code.base,
    ensures
        at(s, code, 0),
{
    reveal(at);
}

/// Running `n + 1` steps is one step, then `n` steps.
pub proof fn lemma_run(s: State, n: nat)
    ensures
        run(s, n + 1) == run(exec(s), n),
        run(s, 0) == s,
{
    reveal(exec);
    reveal_with_fuel(run, 2);
}

/// The step that runs triple `k` of a code, where the triple's destination
/// lies outside the code.
pub proof fn lemma_go(s: State, code: Code, k: int)
    requires
        at(s, code, k),
        0 <= k,
        3 * k + 2 < code.words.len(),
        free(code, addr_of(code.words[3 * k + 1])),
    ensures
        exec(s).ram == s.ram.update(
            addr_of(code.words[3 * k + 1]),
            diff(s.ram[addr_of(code.words[3 * k + 1])], s.ram[addr_of(code.words[3 * k])]),
        ),
        s.ram.len() == 65536,
        if exec(s).ram[addr_of(code.words[3 * k + 1])] <= 0 {
            lands(exec(s), code, code.words[3 * k + 2])
        } else {
            at(exec(s), code, k + 1)
        },
{
    reveal(at);
    reveal(lands);
    reveal(exec);
    reveal(diff);
    let a = code.words[3 * k];
    let b = code.words[3 * k + 1];
    let c = code.words[3 * k + 2];
    lemma_wrapped_sum(code.base + 3 * k, 1);
    lemma_wrapped_sum(code.base + 3 * k, 2);
    lemma_wrapped_sum(code.base + 3 * k, 3);
    assert(s.ram[s.pc] == a);
    assert(s.ram[wrap_addr(s.pc + 1)] == b);
    assert(s.ram[wrap_addr(s.pc + 2)] == c);
    let t = s.step();
    assert forall|i: int| 0 <= i < code.words.len() implies t.ram[wrap_addr(code.base + i)]
        == #[trigger] code.words[i] by {
        assert(wrap_addr(code.base + i) != addr_of(b));
    }
}

/// A jump to the address of triple `k` of the code arrives at that triple.
pub proof fn lemma_land(s: State, code: Code, c: i16, k: int)
    requires
        lands(s, code, c),
        c == target(code.base, 3 * k),
    ensures
        at(s, code, k),
{
    reveal(at);
    reveal(lands);
    reveal(target);
}

/// What standing at a triple means.
pub proof fn lemma_leave(s: State, code: Code, k: int)
    requires
        at(s, code, k),
    ensures
        s.wf(),
        holds(s.ram, code),
        s.pc == wrap_addr(code.base + 3 * k),
{
    reveal(at);
}

/// What having jumped to a word means.
pub proof fn lemma_arrive(s: State, code: Code, c: i16)
    requires
        lands(s, code, c),
    ensures
        s.wf(),
        holds(s.ram, code),
        s.pc == addr_of(c),
{
    reveal(lands);
}

/// The difference that a step computes, without division.
pub proof fn lemma_diff(x: i16, y: i16)
    ensures
        diff(x, y) == sub16(x, y),
{
    reveal(diff);
    lemma_wrapped_words(x, y);
}

/// Every difference that a step computes, without division.
pub proof fn lemma_diffs()
    ensures
        forall|x: i16, y: i16| #[trigger] diff(x, y) == sub16(x, y),
{
    assert forall|x: i16, y: i16| #[trigger] diff(x, y) == sub16(x, y) by {
        lemma_diff(x, y);
    }
}

/// The state after `n` steps, each kept folded.
pub open spec fn after(s: State, n: nat) -> State
    decreases n,
{
    if n == 0 {
        s
    } else {
        exec(after(s, (n - 1) as nat))
    }
}

/// Folding the steps changes nothing.
pub proof fn lemma_after(s: State, n: nat)
    ensures
        run(s, n) == after(s, n),
    decreases n,
{
    if n > 0 {
        lemma_after(s, (n - 1) as nat);
        lemma_run_sum(s, (n - 1) as nat, 1);
        reveal(exec);
        reveal_with_fuel(run, 2);
    }
}

/// A triple that goes on with the next triple whatever it computes.
pub proof fn lemma_next(s: State, code: Code, k: int)
    requires
        at(s, code, k),
        0 <= k,
        3 * k + 2 < code.words.len(),
        free(code, addr_of(code.words[3 * k + 1])),
        code.words[3 * k + 2] == target(code.base, 3 * (k + 1)),
    ensures
        exec(s).ram == s.ram.update(
            addr_of(code.words[3 * k + 1]),
            diff(s.ram[addr_of(code.words[3 * k + 1])], s.ram[addr_of(code.words[3 * k])]),
        ),
        s.ram.len() == 65536,
        at(exec(s), code, k + 1),
{
    lemma_go(s, code, k);
    if exec(s).ram[addr_of(code.words[3 * k + 1])] <= 0 {
        lemma_land(exec(s), code, code.words[3 * k + 2], k + 1);
    }
}

/// A triple that goes to triple `j` of the same code if its result is not
/// positive, and to the next triple otherwise.
pub proof fn lemma_branch(s: State, code: Code, k: int, j: int)
    requires
        at(s, code, k),
        0 <= k,
        3 * k + 2 < code.words.len(),
        free(code, addr_of(code.words[3 * k + 1])),
        code.words[3 * k + 2] == target(code.base, 3 * j),
    ensures
        exec(s).ram == s.ram.update(
            addr_of(code.words[3 * k + 1]),
            diff(s.ram[addr_of(code.words[3 * k + 1])], s.ram[addr_of(code.words[3 * k])]),
        ),
        s.ram.len() == 65536,
        exec(s).ram[addr_of(code.words[3 * k + 1])] <= 0 ==> at(exec(s), code, j),
        exec(s).ram[addr_of(code.words[3 * k + 1])] > 0 ==> at(exec(s), code, k + 1),
{
    lemma_go(s, code, k);
    if exec(s).ram[addr_of(code.words[3 * k + 1])] <= 0 {
        lemma_land(exec(s), code, code.words[3 * k + 2], j);
    }
}

/// A triple that leaves the code for the address that its third word names
/// if its result is not positive, and goes to the next triple otherwise.
pub proof fn lemma_exit(s: State, code: Code, k: int)
    requires
        at(s, code, k),
        0 <= k,
        3 * k + 2 < code.words.len(),
        free(code, addr_of(code.words[3 * k + 1])),
    ensures
        exec(s).ram == s.ram.update(
            addr_of(code.words[3 * k + 1]),
            diff(s.ram[addr_of(code.words[3 * k + 1])], s.ram[addr_of(code.words[3 * k])]),
        ),
        s.ram.len() == 65536,
        exec(s).wf(),
        holds(exec(s).ram, code),
        exec(s).ram[addr_of(code.words[3 * k + 1])] <= 0 ==> exec(s).pc == addr_of(
            code.words[3 * k + 2],
        ),
        exec(s).ram[addr_of(code.words[3 * k + 1])] > 0 ==> at(exec(s), code, k + 1),
{
    lemma_go(s, code, k);
    if exec(s).ram[addr_of(code.words[3 * k + 1])] <= 0 {
        lemma_arrive(exec(s), code, code.words[3 * k + 2]);
    } else {
        lemma_leave(exec(s), code, k + 1);
    }
}

/// The single step of a code of one triple, whatever cells it names.
pub proof fn lemma_single(s: State, code: Code)
    requires
        s.wf(),
        holds(s.ram, code),
        s.pc == code.base,
        code.words.len() == 3,
    ensures
        s.step().ram == s.ram.update(
            addr_of(code.words[1]),
            sub16(s.ram[addr_of(code.words[1])], s.ram[addr_of(code.words[0])]),
        ),
        s.step().pc == if s.step().ram[addr_of(code.words[1])] <= 0 {
            addr_of(code.words[2])
        } else {
            wrap_addr(s.pc + 3)
        },
        s.step().wf(),
{
    lemma_wrapped_sum(s.pc, 1);
    lemma_wrapped_sum(s.pc, 2);
    assert(s.ram[wrap_addr(code.base + 0)] == code.words[0]);
    assert(s.ram[wrap_addr(code.base + 1)] == code.words[1]);
    assert(s.ram[wrap_addr(code.base + 2)] == code.words[2]);
    lemma_wrapped_words(s.ram[addr_of(code.words[1])], s.ram[addr_of(code.words[0])]);
}

/// Running `m` steps and then `n` steps is running `m + n` steps.
pub proof fn lemma_run_sum(s: State, m: nat, n: nat)
    ensures
        run(s, m + n) == run(run(s, m), n),
    decreases m,
{
    if m > 0 {
        lemma_run_sum(s.step(), (m - 1) as nat, n);
    }
}

impl Code {
    /// The code with word `i` replaced.
    pub open spec fn patch(self, i: int, w: i16) -> Code {
        Code { base: self.base, words: self.words.update(i, w) }
    }
}

/// The words that stand in a memory from `base` on, as a code.
pub open spec fn standing(ram: Seq<i16>, base: int, len: nat) -> Code {
    Code { base, words: Seq::new(len, |i: int| ram[wrap_addr(base + i)]) }
}

/// Whether the words of a code stand in a memory but for four of them, which
/// the code itself writes before it reads them.
pub open spec fn holds_but(ram: Seq<i16>, code: Code, h1: int, h2: int, h3: int, h4: int) -> bool {
    forall|i: int|
        0 <= i < code.words.len() && i != h1 && i != h2 && i != h3 && i != h4 ==> ram[wrap_addr(
            code.base + i,
        )] == #[trigger] code.words[i]
}

/// Whether two memories agree outside a code and outside some cells.
pub open spec fn same_outside(before: Seq<i16>, after: Seq<i16>, code: Code, cells: Set<int>)
    -> bool {
    &&& after.len() == before.len()
    &&& forall|j: int|
        0 <= j < before.len() && free(code, j) && !cells.contains(j) ==> #[trigger] after[j]
            == before[j]
}

/// The words in memory are a code that stands in that memory.
pub proof fn lemma_standing(s: State, base: int, len: nat)
    requires
        s.wf(),
        s.pc == base,
    ensures
        at(s, standing(s.ram, base, len), 0),
{
    reveal(at);
}

/// What a code cell holds while the code stands in memory.
pub proof fn lemma_read(s: State, code: Code, k: int, i: int)
    requires
        at(s, code, k),
        0 <= i < code.words.len(),
    ensures
        s.ram[addr_of(target(code.base, i))] == code.words[i],
        addr_of(target(code.base, i)) == wrap_addr(code.base + i),
        0 <= wrap_addr(code.base + i) < 65536,
{
    reveal(at);
    reveal(target);
    assert(s.ram[wrap_addr(code.base + i)] == code.words[i]);
}

/// Different words of a code lie in different cells, and a cell outside
/// the code is none of them.
#[verifier::rlimit(50)]
pub proof fn lemma_cells(code: Code, i: int, j: int, cell: int)
    requires
        0 <= i < code.words.len() <= 65536,
        0 <= j < code.words.len(),
    ensures
        i != j ==> wrap_addr(code.base + i) != wrap_addr(code.base + j),
        free(code, cell) ==> wrap_addr(code.base + i) != cell,
{
}

/// A triple that writes word `i` of its own code and goes on with the next
/// triple whatever it computes.
pub proof fn lemma_patch(s: State, code: Code, k: int, i: int)
    requires
        at(s, code, k),
        0 <= k,
        3 * k + 2 < code.words.len() <= 65536,
        0 <= i < code.words.len(),
        code.words[3 * k + 1] == target(code.base, i),
        code.words[3 * k + 2] == target(code.base, 3 * (k + 1)),
    ensures
        ({
            let v = diff(code.words[i], s.ram[addr_of(code.words[3 * k])]);
            &&& exec(s).ram == s.ram.update(wrap_addr(code.base + i), v)
            &&& at(exec(s), code.patch(i, v), k + 1)
        }),
        s.ram.len() == 65536,
{
    reveal(at);
    reveal(exec);
    reveal(diff);
    reveal(target);
    let a = code.words[3 * k];
    let b = code.words[3 * k + 1];
    let c = code.words[3 * k + 2];
    lemma_wrapped_sum(code.base + 3 * k, 1);
    lemma_wrapped_sum(code.base + 3 * k, 2);
    lemma_wrapped_sum(code.base + 3 * k, 3);
    assert(s.ram[s.pc] == a);
    assert(s.ram[wrap_addr(s.pc + 1)] == b);
    assert(s.ram[wrap_addr(s.pc + 2)] == c);
    assert(s.ram[wrap_addr(code.base + i)] == code.words[i]);
    let t = s.step();
    let v = diff(code.words[i], s.ram[addr_of(a)]);
    let after = code.patch(i, v);
    assert forall|j: int| 0 <= j < after.words.len() implies t.ram[wrap_addr(after.base + j)]
        == #[trigger] after.words[j] by {
        if j != i {
            lemma_cells(code, i, j, 0);
            assert(s.ram[wrap_addr(code.base + j)] == code.words[j]);
        }
    }
}

/// Running `m` folded steps and then `n` is running `m + n`.
pub proof fn lemma_after_sum(s: State, m: nat, n: nat)
    ensures
        after(s, m + n) == after(after(s, m), n),
{
    lemma_after(s, m + n);
    lemma_after(s, m);
    lemma_after(after(s, m), n);
    lemma_run_sum(s, m, n);
}

/// Four words of a code lie in four cells, none of which is a cell outside
/// the code.
pub proof fn lemma_holes(code: Code, h1: int, h2: int, h3: int, h4: int, cell: int)
    requires
        code.words.len() <= 65536,
        0 <= h1 < code.words.len(),
        0 <= h2 < code.words.len(),
        0 <= h3 < code.words.len(),
        0 <= h4 < code.words.len(),
        h1 != h2 && h1 != h3 && h1 != h4 && h2 != h3 && h2 != h4 && h3 != h4,
    ensures
        wrap_addr(code.base + h1) != wrap_addr(code.base + h2),
        wrap_addr(code.base + h1) != wrap_addr(code.base + h3),
        wrap_addr(code.base + h1) != wrap_addr(code.base + h4),
        wrap_addr(code.base + h2) != wrap_addr(code.base + h3),
        wrap_addr(code.base + h2) != wrap_addr(code.base + h4),
        wrap_addr(code.base + h3) != wrap_addr(code.base + h4),
        free(code, cell) ==> wrap_addr(code.base + h1) != cell && wrap_addr(code.base + h2) != cell
            && wrap_addr(code.base + h3) != cell && wrap_addr(code.base + h4) != cell,
{
    lemma_cells(code, h1, h2, cell);
    lemma_cells(code, h1, h3, cell);
    lemma_cells(code, h1, h4, cell);
    lemma_cells(code, h2, h3, cell);
    lemma_cells(code, h2, h4, cell);
    lemma_cells(code, h3, h4, cell);
    lemma_cells(code, h4, h1, cell);
}

/// Code that was written into a memory stands there, and the cells outside
/// it are as they were.
pub proof fn law_written_code_stands(ram: Seq<i16>, code: Code)
    requires
        ram.len() == 65536,
        code.words.len() <= 65536,
    ensures
        stored(ram, code.base, code.words).len() == 65536,
        holds(stored(ram, code.base, code.words), code),
        forall|j: int|
            0 <= j < 65536 && free(code, j) ==> #[trigger] stored(ram, code.base, code.words)[j]
                == ram[j],
    decreases code.words.len(),
{
    let n = code.words.len();
    if n > 0 {
        let front = Code { base: code.base, words: code.words.drop_last() };
        let before = stored(ram, code.base, front.words);
        let now = stored(ram, code.base, code.words);
        law_written_code_stands(ram, front);
        assert(now == before.update(wrap_addr(code.base + n - 1), code.words.last()));
        assert forall|i: int| 0 <= i < n implies now[wrap_addr(code.base + i)]
            == #[trigger] code.words[i] by {
            if i < n - 1 {
                lemma_cells(code, i, n - 1, 0);
                assert(before[wrap_addr(front.base + i)] == front.words[i]);
            }
        }
        assert forall|j: int| 0 <= j < 65536 && free(code, j) implies #[trigger] now[j]
            == ram[j] by {
            assert(wrap_addr(code.base + (n - 1)) != j);
            assert(free(front, j)) by {
                assert forall|i: int| 0 <= i < front.words.len() implies #[trigger] wrap_addr(
                    front.base + i,
                ) != j by {
                    assert(wrap_addr(code.base + i) != j);
                }
            }
        }
    }
}

/// A cell below or above a code that does not reach round the end of the
/// memory lies outside the code.
pub proof fn lemma_placed_code_is_clear(code: Code, cell: int)
    requires
        0 <= code.base,
        code.base + code.words.len() <= 65536,
        0 <= cell < 65536,
        cell < code.base || code.base + code.words.len() <= cell,
    ensures
        free(code, cell),
{
}

/// The code that an assembler has written stands in its memory image, and
/// the cells outside the code are as they were.
pub proof fn law_assembled_code_stands(before: Assembler, after: Assembler, code: Code)
    requires
        after.wrote(before, code),
        code.words.len() <= 65536,
    ensures
        holds(after.data@, code),
        forall|j: int|
            0 <= j < 65536 && free(code, j) ==> #[trigger] after.data@[j] == before.data@[j],
{
    reveal(Assembler::wrote);
    law_written_code_stands(before.data@, code);
}

/// The step that runs triple `k` of a code where the first operand holds 0:
/// the memory stays as it is, whatever cell the triple writes, and control
/// goes where the unchanged destination tells.
pub proof fn lemma_exit_idle(s: State, code: Code, k: int)
    requires
        at(s, code, k),
        0 <= k,
        3 * k + 2 < code.words.len(),
        s.ram[addr_of(code.words[3 * k])] == 0,
    ensures
        exec(s).ram == s.ram,
        exec(s).wf(),
        holds(exec(s).ram, code),
        s.ram[addr_of(code.words[3 * k + 1])] <= 0 ==> exec(s).pc == addr_of(
            code.words[3 * k + 2],
        ),
        s.ram[addr_of(code.words[3 * k + 1])] > 0 ==> at(exec(s), code, k + 1),
{
    reveal(at);
    reveal(exec);
    let a = code.words[3 * k];
    let b = code.words[3 * k + 1];
    let c = code.words[3 * k + 2];
    lemma_wrapped_sum(code.base + 3 * k, 1);
    lemma_wrapped_sum(code.base + 3 * k, 2);
    lemma_wrapped_sum(code.base + 3 * k, 3);
    assert(s.ram[s.pc] == a);
    assert(s.ram[wrap_addr(s.pc + 1)] == b);
    assert(s.ram[wrap_addr(s.pc + 2)] == c);
    lemma_wrapped_words(s.ram[addr_of(b)], 0);
    assert(s.step().ram =~= s.ram);
}

/// Code that stands in a memory still stands after code was written behind
/// it, where neither reaches round the end of the memory.
pub proof fn lemma_earlier_code_stays(first: Code, second: Code, ram: Seq<i16>, later: Seq<i16>)
    requires
        holds(ram, first),
        0 <= first.base,
        first.base + first.words.len() <= second.base,
        second.base + second.words.len() <= 65536,
        forall|j: int| 0 <= j < 65536 && free(second, j) ==> #[trigger] later[j] == ram[j],
    ensures
        holds(later, first),
{
    assert forall|i: int| 0 <= i < first.words.len() implies later[wrap_addr(first.base + i)]
        == #[trigger] first.words[i] by {
        lemma_placed_code_is_clear(second, first.base + i);
        assert(wrap_addr(first.base + i) == first.base + i);
        assert(ram[wrap_addr(first.base + i)] == first.words[i]);
    }
}

} // verus!
