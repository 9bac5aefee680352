//! What the toolchain takes from its host: the IEEE-754 side of the number
//! domains and the output devices. Nothing here is proved; the compiler and the
//! machine state exactly where they use it.
use vstd::prelude::*;
use crate::vm::{FloatOp, Flag, Machine, PrintMode};

verus! {

/// The services of the host the toolchain runs on.
pub trait Platform {
    /// The bit pattern of the 64-bit float that a decimal literal denotes, or
    /// `None` where the text is no float literal.
    fn parse_float(&self, text: &Vec<char>) -> Option<u64>;

    /// The bit pattern of `lhs op rhs`, both operands read as 64-bit floats.
    fn float_arith(&self, op: FloatOp, lhs: u64, rhs: u64) -> u64;

    /// How `lhs` compares with `rhs`, both read as 64-bit floats.
    fn float_compare(&self, lhs: u64, rhs: u64) -> Flag;

    /// Writes one word out in the given format.
    fn print(&mut self, mode: PrintMode, value: u64);

    /// Observes the machine before each instruction when tracing is on.
    fn trace(&mut self, machine: &Machine);
}

} // verus!
