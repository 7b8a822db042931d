use vstd::prelude::*;

verus! {

/// A literal that a chunk can hold.
///
/// A number is a double, kept as its IEEE-754 bit pattern: the pattern is what
/// the chunk stores and hands back, bit for bit.
#[derive(Clone, Copy, PartialEq, Eq, Structural)]
pub enum Value {
    /// No value: the placeholder shown where a constant is looked up and not found.
    Undef,
    /// A double, by its bits.
    Number(u64),
}

/// The constants of one chunk, in the order in which they were added.
pub type ConstantPool = Vec<Value>;

} // verus!
