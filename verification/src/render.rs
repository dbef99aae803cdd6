use vstd::prelude::*;
use crate::domino::{
    Domino, row_view, runs_of, push_run, push_cell, lemma_runs_counts_bounded, colors_count,
    runs_count,
};
use crate::raster::{
    pixel_at, rect_sum, cell_sum, paint_rect, lemma_rect_sum_congruent, lemma_div_mod_mul,
};
use crate::{target_width, target_height};

verus! {

/// Whether the domino cell in row `row`, column `k` is classified white:
/// the cell's binarized pixels are summed and the fixed metric
/// `(sum / 8) * 24` is compared against the midpoint 128. The division
/// happens before the multiplication.
pub open spec fn cell_white(bin: Seq<u8>, c: int, row: int, k: int) -> bool {
    rect_sum(bin, target_width(c), 16 * k, 32 * row, 8, 24) / 8 * 24 >= 128
}

/// The colors of one board row's cells, left to right (true = white).
pub open spec fn row_colors(bin: Seq<u8>, c: int, row: int) -> Seq<bool> {
    Seq::new(c as nat, |k: int| cell_white(bin, c, row, k))
}

/// The whole domino map: one run-length row per board row, top to bottom.
pub open spec fn board_spec(bin: Seq<u8>, c: int, r: int) -> Seq<Seq<(bool, int)>> {
    Seq::new(r as nat, |row: int| runs_of(row_colors(bin, c, row)))
}

/// The value of the output raster's pixel at `(x, y)`: domino cells are
/// painted solid with their classified color, gap columns with neutral
/// gray, and the separator band below every row band but the last with
/// white.
pub open spec fn painted_px(bin: Seq<u8>, c: int, x: int, y: int) -> u8 {
    if y % 32 >= 24 {
        255u8
    } else if x % 16 >= 8 {
        0xeeu8
    } else if cell_white(bin, c, y / 32, x / 16) {
        255u8
    } else {
        0u8
    }
}

/// How many cells of the first `upto` board rows have the given color.
pub open spec fn board_colors_count(bin: Seq<u8>, c: int, upto: int, white: bool) -> int
    decreases upto,
{
    if upto <= 0 {
        0
    } else {
        board_colors_count(bin, c, upto - 1, white) + colors_count(
            row_colors(bin, c, upto - 1),
            white,
        )
    }
}

/// The sum, over the map's rows and each row's runs, of the counts of the
/// runs with the given color.
pub open spec fn board_count(board: Seq<Seq<(bool, int)>>, white: bool) -> int
    decreases board.len(),
{
    if board.len() == 0 {
        0
    } else {
        board_count(board.drop_last(), white) + runs_count(board.last(), white)
    }
}

/// The totals of the map agree with counting the cells row by row: summing
/// the runs' counts by color over the whole map gives the same value as
/// counting each row's cells of that color directly.
pub proof fn lemma_board_count_eq(bin: Seq<u8>, c: int, upto: int, white: bool)
    requires
        0 <= upto,
    ensures
        board_count(board_spec(bin, c, upto), white) == board_colors_count(bin, c, upto, white),
    decreases upto,
{
    if upto > 0 {
        lemma_board_count_eq(bin, c, upto - 1, white);
        assert(board_spec(bin, c, upto).drop_last() =~= board_spec(bin, c, upto - 1));
        crate::domino::lemma_runs_count_eq(row_colors(bin, c, upto - 1), white);
    }
}

/// Scan a binarized raster of the exact target size in row-major cell
/// order: classify every domino cell, merge it into its row's run list,
/// repaint the cell, the gap column beside it and the separator below it,
/// and count the cells of each color. Returns the domino map, the white
/// cell count and the black cell count.
pub fn render(pixels: &mut Vec<u8>, columns: u32, rows: u32) -> (out: (Vec<Vec<Domino>>, u32, u32))
    requires
        1 <= columns <= 4096,
        1 <= rows <= 2048,
        old(pixels)@.len() == target_width(columns as int) * target_height(rows as int),
    ensures
        final(pixels)@.len() == old(pixels)@.len(),
        forall|x: int, y: int|
            0 <= x < target_width(columns as int) && 0 <= y < target_height(rows as int)
                ==> #[trigger] pixel_at(final(pixels)@, target_width(columns as int), x, y)
                == painted_px(old(pixels)@, columns as int, x, y),
        out.0@.len() == rows as int,
        forall|i: int|
            0 <= i < rows as int ==> #[trigger] row_view(out.0@[i]@) == board_spec(
                old(pixels)@,
                columns as int,
                rows as int,
            )[i],
        out.1 == board_colors_count(old(pixels)@, columns as int, rows as int, true),
        out.2 == board_colors_count(old(pixels)@, columns as int, rows as int, false),
        out.1 + out.2 == columns * rows,
{
    let ghost bin = pixels@;
    let ghost c = columns as int;
    let ghost gw = target_width(columns as int);
    let ghost gh = target_height(rows as int);
    let width: u32 = 8 * (2 * columns - 1);
    let height: u32 = 8 * (4 * rows - 1);

    let mut board: Vec<Vec<Domino>> = Vec::new();
    let mut white: u32 = 0;
    let mut black: u32 = 0;
    let mut row: u32 = 0;
    while row < rows
        invariant
            1 <= columns <= 4096,
            1 <= rows <= 2048,
            c == columns as int,
            gw == target_width(c),
            gh == target_height(rows as int),
            width as int == gw,
            height as int == gh,
            bin == old(pixels)@,
            bin.len() == gw * gh,
            pixels@.len() == gw * gh,
            row <= rows,
            board@.len() == row as int,
            forall|i: int|
                0 <= i < row as int ==> #[trigger] row_view(board@[i]@) == runs_of(
                    row_colors(bin, c, i),
                ),
            white == board_colors_count(bin, c, row as int, true),
            black == board_colors_count(bin, c, row as int, false),
            white + black == row as int * c,
            forall|x: int, y: int|
                0 <= x < gw && 0 <= y < gh ==> #[trigger] pixel_at(pixels@, gw, x, y) == (if y < 32
                    * (row as int) {
                    painted_px(bin, c, x, y)
                } else {
                    pixel_at(bin, gw, x, y)
                }),
        decreases rows - row,
    {
        let ghost colors = row_colors(bin, c, row as int);
        let mut row_vec: Vec<Domino> = Vec::new();
        let mut k: u32 = 0;
        proof {
            assert(row as int * c + 0 <= 0x800000) by (nonlinear_arith)
                requires
                    (row as int) < (rows as int),
                    rows <= 2048,
                    c <= 4096,
            ;
        }
        while k < columns
            invariant
                1 <= columns <= 4096,
                1 <= rows <= 2048,
                c == columns as int,
                gw == target_width(c),
                gh == target_height(rows as int),
                width as int == gw,
                height as int == gh,
                bin == old(pixels)@,
                bin.len() == gw * gh,
                pixels@.len() == gw * gh,
                row < rows,
                k <= columns,
                colors == row_colors(bin, c, row as int),
                board@.len() == row as int,
                forall|i: int|
                    0 <= i < row as int ==> #[trigger] row_view(board@[i]@) == runs_of(
                        row_colors(bin, c, i),
                    ),
                row_view(row_vec@) == runs_of(colors.take(k as int)),
                white == board_colors_count(bin, c, row as int, true) + colors_count(
                    colors.take(k as int),
                    true,
                ),
                black == board_colors_count(bin, c, row as int, false) + colors_count(
                    colors.take(k as int),
                    false,
                ),
                white + black == row as int * c + k as int,
                (row as int) * c + (k as int) <= 0x800000,
                forall|x: int, y: int|
                    0 <= x < gw && 0 <= y < gh ==> #[trigger] pixel_at(pixels@, gw, x, y) == (if y
                        < 32 * (row as int) || (y < 32 * (row as int) + 32 && x < 16 * (
                    k as int)) {
                        painted_px(bin, c, x, y)
                    } else {
                        pixel_at(bin, gw, x, y)
                    }),
            decreases columns - k,
        {
            let x0: u32 = 16 * k;
            let y0: u32 = 32 * row;

            // The cell is read before anything of it is painted: every pixel
            // of its rectangle still holds the binarized input value.
            proof {
                lemma_rect_sum_congruent(pixels@, bin, gw, x0 as int, y0 as int, 8, 24);
            }
            let s = cell_sum(pixels, width, height, x0, y0);
            let metric = s / 8 * 24;
            let is_white = metric >= 128;
            proof {
                assert(is_white == cell_white(bin, c, row as int, k as int));
                assert(colors[k as int] == is_white);
            }

            // Merge the freshly classified cell into the row's run list.
            proof {
                lemma_runs_counts_bounded(colors.take(k as int));
                assert(colors.take(k as int + 1).drop_last() =~= colors.take(k as int));
                assert(colors.take(k as int + 1).last() == colors[k as int]);
            }
            push_cell(&mut row_vec, is_white);
            proof {
                assert(runs_of(colors.take(k as int + 1)) == push_run(
                    runs_of(colors.take(k as int)),
                    colors[k as int],
                ));
            }

            // Count the cell.
            if is_white {
                white = white + 1;
            } else {
                black = black + 1;
            }

            // Paint the cell solid with its classified color.
            let val: u8 = if is_white {
                255
            } else {
                0
            };
            let ghost p0 = pixels@;
            paint_rect(pixels, width, height, x0, y0, 8, 24, val);
            let ghost p1 = pixels@;

            // Paint the gap column beside the cell, unless it is the last one.
            if k + 1 < columns {
                paint_rect(pixels, width, height, x0 + 8, y0, 8, 24, 0xee);
            }
            let ghost p2 = pixels@;

            // Paint the separator below the cell and its gap column, unless
            // this is the last row band.
            if row + 1 < rows {
                let strip_w: u32 = if k + 1 < columns {
                    16
                } else {
                    8
                };
                paint_rect(pixels, width, height, x0, y0 + 24, strip_w, 8, 255);
            }

            proof {
                assert forall|x: int, y: int| 0 <= x < gw && 0 <= y < gh implies #[trigger]
                    pixel_at(pixels@, gw, x, y) == (if y < 32 * (row as int) || (y < 32 * (
                row as int) + 32 && x < 16 * (k as int) + 16) {
                    painted_px(bin, c, x, y)
                } else {
                    pixel_at(bin, gw, x, y)
                }) by {
                    let v0 = pixel_at(p0, gw, x, y);
                    let v1 = pixel_at(p1, gw, x, y);
                    let v2 = pixel_at(p2, gw, x, y);
                    if 32 * (row as int) <= y < 32 * (row as int) + 32 {
                        lemma_div_mod_mul(row as int, y - 32 * (row as int), 32);
                    }
                    if 16 * (k as int) <= x < 16 * (k as int) + 16 {
                        lemma_div_mod_mul(k as int, x - 16 * (k as int), 16);
                    }
                }
            }

            proof {
                assert(colors_count(colors.take(k as int + 1), true) == colors_count(
                    colors.take(k as int),
                    true,
                ) + if colors[k as int] == true {
                    1int
                } else {
                    0int
                });
                assert(colors_count(colors.take(k as int + 1), false) == colors_count(
                    colors.take(k as int),
                    false,
                ) + if colors[k as int] == false {
                    1int
                } else {
                    0int
                });
                assert(row as int * c + (k as int + 1) <= 0x800000) by (nonlinear_arith)
                    requires
                        (row as int) < (rows as int),
                        (k as int) < c,
                        rows <= 2048,
                        c <= 4096,
                ;
            }
            k += 1;
        }
        proof {
            assert(colors.take(columns as int) =~= colors);
            assert((row as int + 1) * c == row as int * c + c) by (nonlinear_arith);
        }
        board.push(row_vec);
        row += 1;
    }
    proof {
        assert(rows as int * c == c * rows as int) by (nonlinear_arith);
        assert forall|i: int| 0 <= i < rows as int implies #[trigger] row_view(board@[i]@)
            == board_spec(bin, c, rows as int)[i] by {}
    }
    (board, white, black)
}

} // verus!
