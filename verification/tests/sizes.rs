use std::mem::size_of;

use tac::chunk::Instruction;
use tac::value::Value;

#[test]
fn instruction_is_at_most_64_bits() {
    // An instruction should be at most 64 bits; anything bigger and we've mis-defined some
    // variant
    assert!(size_of::<Instruction>() <= 4);
}

#[test]
fn value_is_at_most_128_bits() {
    assert!(size_of::<Value>() <= 16);
}
