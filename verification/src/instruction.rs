//! Decoding of a raw 16-bit instruction word into its fixed bit fields.
//!
//! Any 16-bit value decodes into well-formed fields; whether the resulting
//! operation is recognized is judged by the execution engine.

use vstd::prelude::*;

verus! {

/// Top nibble (bits 15-12): selects the instruction family.
pub open spec fn op_a(w: u16) -> u8 {
    (w >> 12) as u8
}

/// Bits 11-8: first register-index operand, always below 16.
pub open spec fn op_x(w: u16) -> usize {
    ((w & 0x0F00) >> 8) as usize
}

/// Bits 7-4: second register-index operand, always below 16.
pub open spec fn op_y(w: u16) -> usize {
    ((w & 0x00F0) >> 4) as usize
}

/// Bits 3-0: 4-bit immediate.
pub open spec fn op_n(w: u16) -> u8 {
    (w & 0x000F) as u8
}

/// Bits 7-0: 8-bit immediate.
pub open spec fn op_nn(w: u16) -> u8 {
    (w & 0x00FF) as u8
}

/// Bits 11-0: 12-bit immediate address, always below 4096.
pub open spec fn op_nnn(w: u16) -> u16 {
    w & 0x0FFF
}

/// Ranges of the decoded fields, used throughout for in-bounds indexing.
pub proof fn lemma_field_bounds(w: u16)
    ensures
        op_a(w) < 16,
        op_x(w) < 16,
        op_y(w) < 16,
        op_n(w) < 16,
        op_nnn(w) < 4096,
{
    assert((w >> 12) < 16) by (bit_vector);
    assert(((w & 0x0F00) >> 8) < 16) by (bit_vector);
    assert(((w & 0x00F0) >> 4) < 16) by (bit_vector);
    assert((w & 0x000F) < 16) by (bit_vector);
    assert((w & 0x0FFF) < 4096) by (bit_vector);
}

/// A raw 16-bit instruction word.
#[derive(Debug, Clone, Copy)]
pub struct Instruction(pub u16);

impl View for Instruction {
    type V = u16;

    open spec fn view(&self) -> u16 {
        self.0
    }
}

impl Instruction {
    pub fn new(instruction: u16) -> (r: Self)
        ensures
            r@ == instruction,
    {
        Self(instruction)
    }

    pub fn a(&self) -> (r: u8)
        ensures
            r == op_a(self@),
            r < 16,
    {
        proof {
            lemma_field_bounds(self.0);
        }
        (self.0 >> 12) as u8
    }

    pub fn x(&self) -> (r: usize)
        ensures
            r == op_x(self@),
            r < 16,
    {
        proof {
            lemma_field_bounds(self.0);
        }
        ((self.0 & 0x0F00) >> 8) as usize
    }

    pub fn y(&self) -> (r: usize)
        ensures
            r == op_y(self@),
            r < 16,
    {
        proof {
            lemma_field_bounds(self.0);
        }
        ((self.0 & 0x00F0) >> 4) as usize
    }

    pub fn n(&self) -> (r: u8)
        ensures
            r == op_n(self@),
            r < 16,
    {
        proof {
            lemma_field_bounds(self.0);
        }
        (self.0 & 0x000F) as u8
    }

    pub fn nn(&self) -> (r: u8)
        ensures
            r == op_nn(self@),
    {
        (self.0 & 0x00FF) as u8
    }

    pub fn nnn(&self) -> (r: u16)
        ensures
            r == op_nnn(self@),
            r < 4096,
    {
        proof {
            lemma_field_bounds(self.0);
        }
        self.0 & 0x0FFF
    }
}

} // verus!
