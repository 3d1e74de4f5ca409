use vstd::prelude::*;

verus! {

/// Width of the screen in pixels.
pub const SCREEN_WIDTH: usize = 512;

/// Height of the screen in pixels.
pub const SCREEN_HEIGHT: usize = 256;

/// Address of the first screen word.
pub const SCREEN_LOCATION: usize = 16384;

/// Number of screen words: 16 pixels each.
pub const SCREEN_LENGTH: usize = 8192;

/// Address of the keyboard register.
pub const KBD_LOCATION: usize = 24576;

/// Number of instructions run between two refreshes of the display.
pub const INSTRUCTIONS_PER_REFRESH: usize = 100000;

/// Whether pixel `p` is set. Pixels are numbered row by row, 512 to a row; pixel `p` is bit
/// `p % 16` of word `p / 16`, bit 0 being the leftmost of the word's sixteen.
pub open spec fn pixel_on(screen: Seq<i16>, p: int) -> bool {
    ((screen[p / 16] as u16) >> ((p % 16) as u16)) & 1u16 == 1u16
}

/// The screen words as an RGB image, three bytes per pixel in row order: black (0) for a set
/// pixel, white (255) for a clear one.
pub fn hack_to_rgba(screen: &[i16]) -> (r: Vec<u8>)
    requires
        screen@.len() >= SCREEN_LENGTH,
    ensures
        r@.len() == SCREEN_WIDTH * SCREEN_HEIGHT * 3,
        forall|i: int|
            0 <= i < r@.len() ==> #[trigger] r@[i] == if pixel_on(screen@, i / 3) {
                0u8
            } else {
                255u8
            },
{
    let total: usize = SCREEN_WIDTH * SCREEN_HEIGHT * 3;
    let mut r: Vec<u8> = Vec::new();
    let mut i: usize = 0;
    while i < total
        invariant
            total == SCREEN_WIDTH * SCREEN_HEIGHT * 3,
            screen@.len() >= SCREEN_LENGTH,
            i <= total,
            r@.len() == i,
            forall|j: int|
                0 <= j < i ==> #[trigger] r@[j] == if pixel_on(screen@, j / 3) {
                    0u8
                } else {
                    255u8
                },
        decreases total - i,
    {
        let p = i / 3;
        let word = screen[p / 16] as u16;
        let bit = (p % 16) as u16;
        if (word >> bit) & 1 == 1 {
            r.push(0);
        } else {
            r.push(255);
        }
        i += 1;
    }
    r
}

} // verus!
