//! The display compositor: a stateless conversion of the 256-byte packed
//! bitmap into one element per pixel for the rendering host.

use vstd::prelude::*;
use crate::machine::Chip8;

verus! {

/// Whether the pixel at row `y`, column `x` of the packed bitmap is lit.
/// Pixels are packed 8 per byte, row-major, most significant bit leftmost.
pub open spec fn spec_pixel_on(display: Seq<u8>, y: int, x: int) -> bool {
    display[y * 8 + x / 8] & (1u8 << ((7 - x % 8) as u8)) != 0
}

impl Chip8 {
    /// The display as one 32-bit color per pixel in row-major order: white
    /// where the pixel is lit, black where it is not.  Pure function of the
    /// display state.
    pub fn get_display_buffer(&self) -> (buffer: Vec<u32>)
        requires
            self.wf(),
        ensures
            buffer@.len() == 2048,
            forall|p: int|
                0 <= p < 2048 ==> buffer@[p] == (if spec_pixel_on(self@.display, p / 64, p % 64) {
                    0xFFFFFFu32
                } else {
                    0x000000u32
                }),
    {
        let mut buffer: Vec<u32> = Vec::new();
        let mut y: usize = 0;
        while y < 32
            invariant
                self.wf(),
                y <= 32,
                buffer@.len() == y * 64,
                forall|p: int|
                    0 <= p < y * 64 ==> buffer@[p] == (if spec_pixel_on(
                        self@.display,
                        p / 64,
                        p % 64,
                    ) {
                        0xFFFFFFu32
                    } else {
                        0x000000u32
                    }),
            decreases 32 - y,
        {
            let mut x: usize = 0;
            while x < 64
                invariant
                    self.wf(),
                    y < 32,
                    x <= 64,
                    buffer@.len() == y * 64 + x,
                    forall|p: int|
                        0 <= p < y * 64 + x ==> buffer@[p] == (if spec_pixel_on(
                            self@.display,
                            p / 64,
                            p % 64,
                        ) {
                            0xFFFFFFu32
                        } else {
                            0x000000u32
                        }),
                decreases 64 - x,
            {
                let byte_index = y * 8 + x / 8;
                let bit_position: u8 = (7 - x % 8) as u8;
                let pixel_on = (self.display[byte_index] & (1u8 << bit_position)) != 0;
                buffer.push(if pixel_on { 0xFFFFFF } else { 0x000000 });
                proof {
                    vstd::arithmetic::div_mod::lemma_fundamental_div_mod_converse(
                        y * 64 + x,
                        64,
                        y as int,
                        x as int,
                    );
                    assert(pixel_on == spec_pixel_on(self@.display, y as int, x as int));
                }
                x = x + 1;
            }
            y = y + 1;
        }
        buffer
    }
}

} // verus!
