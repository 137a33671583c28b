//! The execution core: a flat memory of signed 16-bit words and a program
//! counter, driven by one primitive instruction.

use vstd::prelude::*;

verus! {

/// Number of words in the machine's memory.
pub const SUBLEQ_RAM_LEN: usize = 65536;

/// The address that a word names: its value taken modulo 2^16.
pub open spec fn addr_of(w: i16) -> int {
    if w >= 0 {
        w as int
    } else {
        w + 65536
    }
}

/// The word that stands for an integer: its value modulo 2^16, read as signed.
pub open spec fn word_of(x: int) -> i16 {
    let r = x % 65536;
    if r >= 32768 {
        (r - 65536) as i16
    } else {
        r as i16
    }
}

/// The difference of two words, wrapped into a word, without division.
pub open spec fn sub16(x: i16, y: i16) -> i16 {
    if x - y > 32767 {
        (x - y - 65536) as i16
    } else if x - y < -32768 {
        (x - y + 65536) as i16
    } else {
        (x - y) as i16
    }
}

/// The sum of two words, wrapped into a word, without division.
pub open spec fn sum16(x: i16, y: i16) -> i16 {
    if x + y > 32767 {
        (x + y - 65536) as i16
    } else if x + y < -32768 {
        (x + y + 65536) as i16
    } else {
        (x + y) as i16
    }
}

/// The negation of a word, wrapped into a word: the least word is its own
/// negation.
pub open spec fn neg16(x: i16) -> i16 {
    if x == -32768 {
        x
    } else {
        (-x) as i16
    }
}

/// The wrapped operations are arithmetic modulo 2^16.
pub proof fn lemma_wrapped_words(x: i16, y: i16)
    ensures
        sub16(x, y) == word_of(x - y),
        sum16(x, y) == word_of(x + y),
        neg16(x) == word_of(-x),
        neg16(x) == sub16(0, x),
        sum16(x, y) == sub16(x, neg16(y)),
{
}

/// An address after wrapping into the memory.
pub open spec fn wrap_addr(x: int) -> int {
    x % 65536
}

/// The machine state as mathematics: the memory and the program counter.
pub struct State {
    pub ram: Seq<i16>,
    pub pc: int,
}

impl State {
    /// A state is valid when the memory has its full length and the program
    /// counter points into it.
    pub open spec fn wf(self) -> bool {
        self.ram.len() == 65536 && 0 <= self.pc < 65536
    }

    /// Operand address A of the instruction at the program counter.
    pub open spec fn op_a(self) -> int {
        addr_of(self.ram[self.pc])
    }

    /// Operand address B of the instruction at the program counter.
    pub open spec fn op_b(self) -> int {
        addr_of(self.ram[wrap_addr(self.pc + 1)])
    }

    /// Jump target C of the instruction at the program counter.
    pub open spec fn op_c(self) -> int {
        addr_of(self.ram[wrap_addr(self.pc + 2)])
    }

    /// The value that the instruction at the program counter leaves in B.
    pub open spec fn difference(self) -> i16 {
        word_of(self.ram[self.op_b()] - self.ram[self.op_a()])
    }

    /// One execution of the primitive instruction.
    pub open spec fn step(self) -> State {
        State {
            ram: self.ram.update(self.op_b(), self.difference()),
            pc: if self.difference() <= 0 {
                self.op_c()
            } else {
                wrap_addr(self.pc + 3)
            },
        }
    }
}

/// The address that a word names, as a machine index.
pub fn address(w: i16) -> (a: u16)
    ensures
        a == addr_of(w),
{
    if w >= 0 {
        w as u16
    } else {
        (w as i32 + 65536) as u16
    }
}

/// The difference of two words, wrapped into a word.
pub fn subtract(x: i16, y: i16) -> (d: i16)
    ensures
        d == word_of(x - y),
{
    x.wrapping_sub(y)
}

/// The one-instruction machine.
pub struct SubLeq {
    pub ram: [i16; SUBLEQ_RAM_LEN],
    pub pc: u16,
}

impl View for SubLeq {
    type V = State;

    open spec fn view(&self) -> State {
        State { ram: self.ram@, pc: self.pc as int }
    }
}

impl SubLeq {
    /// A machine with all memory zero and the program counter at address 0.
    pub fn new() -> (m: Self)
        ensures
            m@.wf(),
            m.pc == 0,
            forall|i: int| 0 <= i < 65536 ==> m@.ram[i] == 0,
    {
        Self { ram: [0; SUBLEQ_RAM_LEN], pc: 0 }
    }

    /// Executes the instruction at the program counter.
    pub fn clock(&mut self)
        ensures
            final(self)@ == old(self)@.step(),
            final(self)@.wf(),
    {
        let a = address(self.ram[self.pc as usize]) as usize;
        let b = address(self.ram[self.pc.wrapping_add(1) as usize]) as usize;
        let c = address(self.ram[self.pc.wrapping_add(2) as usize]);
        let d = subtract(self.ram[b], self.ram[a]);
        self.ram[b] = d;
        if d > 0 {
            self.pc = self.pc.wrapping_add(3);
        } else {
            self.pc = c;
        }
    }
}

} // verus!
