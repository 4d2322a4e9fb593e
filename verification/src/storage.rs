//! Bit-packed cell storage: eight cells per byte, bit `i % 8` of byte
//! `i / 8` holding cell `i`.

use vstd::arithmetic::div_mod::lemma_fundamental_div_mod;
use vstd::prelude::*;

verus! {

/// The bit stored for cell `i` in the packed byte buffer.
pub open spec fn bit_at(bytes: Seq<u8>, i: int) -> bool {
    (bytes[i / 8] >> ((i % 8) as u8)) & 1 == 1
}

/// Reads the bit for cell `i` from the packed buffer.
pub fn bit_get(bytes: &Vec<u8>, i: usize) -> (b: bool)
    requires
        i < 8 * bytes@.len(),
    ensures
        b == bit_at(bytes@, i as int),
{
    proof {
        lemma_fundamental_div_mod(i as int, 8);
    }
    let nbyte = i / 8;
    let nbit = (i % 8) as u8;
    (bytes[nbyte] >> nbit) & 1 == 1
}

/// Writes the bit for cell `i` in the packed buffer, leaving every other
/// cell's bit as it was.
pub fn bit_set(bytes: &mut Vec<u8>, i: usize, v: bool)
    requires
        i < 8 * old(bytes)@.len(),
    ensures
        final(bytes)@.len() == old(bytes)@.len(),
        bit_at(final(bytes)@, i as int) == v,
        forall|j: int|
            0 <= j < 8 * final(bytes)@.len() && j != i as int ==> bit_at(final(bytes)@, j) == bit_at(
                old(bytes)@,
                j,
            ),
{
    proof {
        lemma_fundamental_div_mod(i as int, 8);
    }
    let nbyte = i / 8;
    let nbit = (i % 8) as u8;
    let b = bytes[nbyte];
    let nb = if v {
        b | (1u8 << nbit)
    } else {
        b & !(1u8 << nbit)
    };
    bytes.set(nbyte, nb);
    proof {
        assert(v ==> ((b | (1u8 << nbit)) >> nbit) & 1 == 1) by (bit_vector)
            requires
                nbit < 8,
        ;
        assert(!v ==> ((b & !(1u8 << nbit)) >> nbit) & 1 == 0) by (bit_vector)
            requires
                nbit < 8,
        ;
        assert forall|j: int| 0 <= j < 8 * bytes@.len() && j != i as int implies bit_at(
            bytes@,
            j,
        ) == bit_at(old(bytes)@, j) by {
            lemma_fundamental_div_mod(j, 8);
            let jbyte = j / 8;
            let jbit = (j % 8) as u8;
            if jbyte == nbyte as int {
                assert(jbit != nbit);
                assert(((b | (1u8 << nbit)) >> jbit) & 1 == (b >> jbit) & 1) by (bit_vector)
                    requires
                        nbit < 8,
                        jbit < 8,
                        jbit != nbit,
                ;
                assert(((b & !(1u8 << nbit)) >> jbit) & 1 == (b >> jbit) & 1) by (bit_vector)
                    requires
                        nbit < 8,
                        jbit < 8,
                        jbit != nbit,
                ;
            }
        }
    }
}

} // verus!
