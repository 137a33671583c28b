//! The reserved low region of memory: the call stack, then the registers.

use vstd::prelude::*;

verus! {

/// First address of the register block. The words below it hold the stack of
/// return addresses that `jsr`, `cll` and `ret` maintain.
pub const INITIAL_OFFSET: u16 = 0x100;

/// The addresses of the registers.
pub struct Registers;

impl Registers {
    /// Control: a write here halts the execution loop.
    pub const BRK: i16 = 0x100;

    /// Port: a write here prints a decimal integer.
    pub const IOUT: i16 = 0x101;

    /// Port: a write here prints a character.
    pub const COUT: i16 = 0x102;

    /// Constant 1.
    pub const P1: i16 = 0x103;

    /// Constant -1.
    pub const N1: i16 = 0x104;

    /// Constant: the least word.
    pub const O: i16 = 0x105;

    /// Constant: distance from the self-address word of `jsr` to its end.
    pub const J: i16 = 0x106;

    /// Constant: distance from the self-address word of `cll` to its end.
    pub const K: i16 = 0x107;

    /// Scratch, used by most expansions.
    pub const A: i16 = 0x108;

    /// Scratch, used by some expansions.
    pub const B: i16 = 0x109;

    /// Stack pointer of the call linkage.
    pub const S: i16 = 0x10A;

    /// General purpose.
    pub const R: i16 = 0x10B;

    /// Receives the argument of `cll`.
    pub const A1: i16 = 0x10C;

    /// General purpose.
    pub const A2: i16 = 0x10D;

    /// General purpose.
    pub const X: i16 = 0x10E;

    /// General purpose.
    pub const Y: i16 = 0x10F;

    /// General purpose.
    pub const F: i16 = 0x110;

    /// First address above the register block, where variables start.
    pub const DATA_OFFSET: i16 = 0x111;
}

} // verus!
