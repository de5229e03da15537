//! A lossy 2x2-block image codec over scaled-integer arithmetic, with the
//! bit-field packing, colour and block transforms, quantizer and grid
//! containers it is built from.

use vstd::prelude::*;

pub mod array2;
pub mod bitpack;
pub mod blocks;
pub mod codec;
pub mod color;
pub mod numeric;
pub mod quantize;
pub mod sudoku;

verus! {

} // verus!
