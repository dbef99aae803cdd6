use vstd::prelude::*;
use crate::domino::{
    runs_total, no_adjacent_equal, lemma_runs_total, lemma_no_adjacent_equal_runs,
    lemma_colors_count_total,
};
use crate::render::{
    board_spec, board_count, board_colors_count, row_colors, lemma_board_count_eq,
};
use crate::codec::ConvertError;
use crate::convert::{convert_post, map_view, ConvertResult};

verus! {

/// The first `upto` rows hold `upto * c` cells, each counted once as white
/// or once as black.
proof fn lemma_board_colors_total(bin: Seq<u8>, c: int, upto: int)
    requires
        0 <= c,
        0 <= upto,
    ensures
        board_colors_count(bin, c, upto, true) + board_colors_count(bin, c, upto, false) == upto
            * c,
    decreases upto,
{
    if upto > 0 {
        lemma_board_colors_total(bin, c, upto - 1);
        lemma_colors_count_total(row_colors(bin, c, upto - 1));
        assert(upto * c == (upto - 1) * c + c) by (nonlinear_arith);
    }
}

/// Cell-count conservation: summing the runs' counts of a rendered domino
/// map by color gives a white total and a black total that together count
/// every cell of the board exactly once: they sum to `c * r`.
pub proof fn lemma_cell_count_conservation(bin: Seq<u8>, c: int, r: int)
    requires
        0 <= c,
        0 <= r,
    ensures
        board_count(board_spec(bin, c, r), true) + board_count(board_spec(bin, c, r), false) == c
            * r,
{
    lemma_board_count_eq(bin, c, r, true);
    lemma_board_count_eq(bin, c, r, false);
    lemma_board_colors_total(bin, c, r);
    assert(r * c == c * r) by (nonlinear_arith);
}

/// Run-sum conservation: in every row of a rendered domino map, the counts
/// of the row's runs sum to the number of board columns.
pub proof fn lemma_run_sum_conservation(bin: Seq<u8>, c: int, r: int, i: int)
    requires
        0 <= c,
        0 <= i < r,
    ensures
        runs_total(board_spec(bin, c, r)[i]) == c,
{
    lemma_runs_total(row_colors(bin, c, i));
}

/// No adjacent equal-color runs: in every row of a rendered domino map, no
/// two consecutive runs share a color.
pub proof fn lemma_map_no_adjacent_equal(bin: Seq<u8>, c: int, r: int, i: int)
    requires
        0 <= i < r,
    ensures
        no_adjacent_equal(board_spec(bin, c, r)[i]),
{
    lemma_no_adjacent_equal_runs(row_colors(bin, c, i));
}

/// Determinism: two conversions of the same bytes for the same board size
/// agree on whether they succeed and on which error they fail with, and
/// when both succeed they return byte-identical encoded images, identical
/// textual maps and identical totals.
pub proof fn lemma_convert_deterministic(
    bytes: Seq<u8>,
    c: u32,
    r: u32,
    res1: Result<ConvertResult, ConvertError>,
    res2: Result<ConvertResult, ConvertError>,
)
    requires
        convert_post(bytes, c, r, res1),
        convert_post(bytes, c, r, res2),
    ensures
        res1 is Ok <==> res2 is Ok,
        res1 is Err ==> res1->Err_0 == res2->Err_0,
        res1 is Ok ==> {
            &&& res1->Ok_0.bytes@ == res2->Ok_0.bytes@
            &&& map_view(res1->Ok_0.map@) == map_view(res2->Ok_0.map@)
            &&& res1->Ok_0.white_count == res2->Ok_0.white_count
            &&& res1->Ok_0.black_count == res2->Ok_0.black_count
        },
{
}

} // verus!
