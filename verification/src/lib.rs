pub mod codec;
pub mod convert;
pub mod domino;
pub mod laws;
pub mod raster;
pub mod render;

pub use codec::ConvertError;
pub use convert::{convert, normalize, ConvertResult};
pub use domino::Domino;

use vstd::prelude::*;

verus! {

/// Width in pixels of one domino cell; also the width of a gap column
/// and the height of a separator band.
pub const DOMINO_WIDTH: u32 = 8;

/// Height in pixels of one domino cell.
pub const DOMINO_HEIGHT: u32 = 24;

/// The widest board whose rendered image stays within the JPEG format's
/// dimension cap of 65535 pixels.
pub const MAX_COLUMNS: u32 = 4096;

/// The tallest board whose rendered image stays within the JPEG format's
/// dimension cap of 65535 pixels.
pub const MAX_ROWS: u32 = 2048;

/// The widest board whose pixel-width formula stays within `u32`
/// arithmetic.
pub const MAX_SAFE_COLUMNS: u32 = 0x10000000;

/// The tallest board whose pixel-height formula stays within `u32`
/// arithmetic.
pub const MAX_SAFE_ROWS: u32 = 0x8000000;

/// Pixel width of the rendered board: one cell-wide column per board
/// column, with a gap column between every two of them.
pub open spec fn target_width(columns: int) -> int {
    8 * (2 * columns - 1)
}

/// Pixel height of the rendered board: one cell-high band per board
/// row, with a separator band below every band but the last.
pub open spec fn target_height(rows: int) -> int {
    8 * (4 * rows - 1)
}

/// Pixel dimensions of the rendered image for a given board size.
pub fn get_final_image_size(board_size: (u32, u32)) -> (dims: (u32, u32))
    requires
        1 <= board_size.0 <= MAX_SAFE_COLUMNS,
        1 <= board_size.1 <= MAX_SAFE_ROWS,
    ensures
        dims.0 == target_width(board_size.0 as int),
        dims.1 == target_height(board_size.1 as int),
{
    let width = DOMINO_WIDTH * (2 * board_size.0 - 1);
    let height = DOMINO_WIDTH * (4 * board_size.1 - 1);
    (width, height)
}

} // verus!
