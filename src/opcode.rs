use vstd::prelude::*;

verus! {

/// Category nibble (bits 15..12) of an instruction word.
pub open spec fn category_of(w: u16) -> u8 {
    (w / 0x1000) as u8
}

/// Second nibble (bits 11..8): the X register index.
pub open spec fn x_of(w: u16) -> u8 {
    ((w / 0x100) % 0x10) as u8
}

/// Third nibble (bits 7..4): the Y register index.
pub open spec fn y_of(w: u16) -> u8 {
    ((w / 0x10) % 0x10) as u8
}

/// Fourth nibble (bits 3..0): the 4-bit immediate N.
pub open spec fn n_of(w: u16) -> u8 {
    (w % 0x10) as u8
}

/// Low byte (bits 7..0): the 8-bit immediate NN.
pub open spec fn nn_of(w: u16) -> u8 {
    (w % 0x100) as u8
}

/// Low twelve bits: the address immediate NNN.
pub open spec fn nnn_of(w: u16) -> u16 {
    (w % 0x1000) as u16
}

/// The fields of one 16-bit instruction word.
#[derive(Clone, Copy, Debug, PartialEq, Eq, Structural)]
pub struct OpCode {
    pub c: u8,
    pub x: u8,
    pub y: u8,
    pub n: u8,
    pub nn: u8,
    pub nnn: u16,
}

impl OpCode {
    /// The decoded form of the word `w`.
    pub open spec fn spec_decode(w: u16) -> OpCode {
        OpCode {
            c: category_of(w),
            x: x_of(w),
            y: y_of(w),
            n: n_of(w),
            nn: nn_of(w),
            nnn: nnn_of(w),
        }
    }

    /// Splits an instruction word into its category, register indices and
    /// immediates.
    pub fn decode(opcode: &u16) -> (r: Self)
        ensures
            r == OpCode::spec_decode(*opcode),
            r.c < 16 && r.x < 16 && r.y < 16 && r.n < 16 && r.nnn < 0x1000,
    {
        let w: u16 = *opcode;
        let c = ((w & 0xF000) >> 12) as u8;
        let x = ((w & 0x0F00) >> 8) as u8;
        let y = ((w & 0x00F0) >> 4) as u8;
        let n = (w & 0x000F) as u8;
        let nn = (w & 0x00FF) as u8;
        let nnn = w & 0x0FFF;
        proof {
            lemma_fields(w);
        }
        OpCode { c, x, y, n, nn, nnn }
    }
}

/// The masks and shifts used by `decode` give the nibble fields.
pub proof fn lemma_fields(w: u16)
    ensures
        (w & 0xF000) >> 12 == w / 0x1000,
        (w & 0x0F00) >> 8 == (w / 0x100) % 0x10,
        (w & 0x00F0) >> 4 == (w / 0x10) % 0x10,
        w & 0x000F == w % 0x10,
        w & 0x00FF == w % 0x100,
        w & 0x0FFF == w % 0x1000,
        w / 0x1000 < 16,
{
    assert((w & 0xF000) >> 12 == w / 0x1000) by (bit_vector);
    assert((w & 0x0F00) >> 8 == (w / 0x100) % 0x10) by (bit_vector);
    assert((w & 0x00F0) >> 4 == (w / 0x10) % 0x10) by (bit_vector);
    assert(w & 0x000F == w % 0x10) by (bit_vector);
    assert(w & 0x00FF == w % 0x100) by (bit_vector);
    assert(w & 0x0FFF == w % 0x1000) by (bit_vector);
}

} // verus!
