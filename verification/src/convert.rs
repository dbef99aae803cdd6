use vstd::prelude::*;
use crate::domino::{Domino, row_view, run_view, runs_of, run_label, label_of_run};
use crate::raster::{bin_of, binarize, pixel_at};
use crate::render::{
    render, board_spec, board_count, lemma_board_count_eq, painted_px, row_colors,
};
use crate::codec::{
    ConvertError, decoded_of, jpeg_of, guessable, decode_ok, decode_and_resize, encode_jpeg,
};
use crate::{
    target_width, target_height, get_final_image_size, MAX_COLUMNS, MAX_ROWS, MAX_SAFE_COLUMNS,
    MAX_SAFE_ROWS,
};
use vstd::arithmetic::div_mod::lemma_fundamental_div_mod;

verus! {

/// The terminal output of a conversion: the encoded image, the textual
/// row-by-row domino map, and the two cell totals.
pub struct ConvertResult {
    pub bytes: Vec<u8>,
    pub map: Vec<Vec<String>>,
    pub white_count: u32,
    pub black_count: u32,
}

/// The painted output raster, pixel by pixel in row-major order.
pub open spec fn painted_of(bin: Seq<u8>, c: int, width: int, height: int) -> Seq<u8> {
    Seq::new((width * height) as nat, |i: int| painted_px(bin, c, i % width, i / width))
}

/// The characters of each label of one row of the textual map.
pub open spec fn labels_view(labels: Seq<String>) -> Seq<Seq<char>> {
    labels.map_values(|s: String| s@)
}

/// The labels a row of runs is rendered as.
pub open spec fn row_labels(runs: Seq<(bool, int)>) -> Seq<Seq<char>> {
    runs.map_values(|run: (bool, int)| run_label(run))
}

/// The characters of the whole textual map.
pub open spec fn map_view(m: Seq<Vec<String>>) -> Seq<Seq<Seq<char>>> {
    m.map_values(|row: Vec<String>| labels_view(row@))
}

/// The textual map a binarized raster is rendered as.
pub open spec fn map_spec(bin: Seq<u8>, c: int, r: int) -> Seq<Seq<Seq<char>>> {
    Seq::new(r as nat, |i: int| row_labels(runs_of(row_colors(bin, c, i))))
}

/// What a successful conversion returns for the given input bytes and
/// board size: the JPEG encoding of the repainted raster, the textual map
/// of the run-length rows, and the two totals, which sum over the map's
/// entries by color and together cover every cell exactly once.
pub open spec fn convert_ok(bytes: Seq<u8>, c: u32, r: u32, out: ConvertResult) -> bool {
    let w = target_width(c as int);
    let h = target_height(r as int);
    let bin = bin_of(decoded_of(bytes, w, h));
    let board = board_spec(bin, c as int, r as int);
    &&& out.bytes@ == jpeg_of(painted_of(bin, c as int, w, h), w, h)
    &&& out.map@.len() == r as int
    &&& map_view(out.map@) == map_spec(bin, c as int, r as int)
    &&& out.white_count == board_count(board, true)
    &&& out.black_count == board_count(board, false)
    &&& out.white_count + out.black_count == c * r
}

/// Decode the input bytes, resize the raster to the exact target
/// resolution for the requested board size, and binarize every pixel at
/// the fixed midpoint threshold.
pub fn normalize(bytes: &[u8], board_size: (u32, u32)) -> (res: Result<Vec<u8>, ConvertError>)
    requires
        1 <= board_size.0 <= MAX_COLUMNS,
        1 <= board_size.1 <= MAX_ROWS,
    ensures
        res matches Ok(v) ==> {
            &&& v@ == bin_of(
                decoded_of(
                    bytes@,
                    target_width(board_size.0 as int),
                    target_height(board_size.1 as int),
                ),
            )
            &&& v@.len() == target_width(board_size.0 as int) * target_height(
                board_size.1 as int,
            )
        },
        res is Ok <==> decode_ok(bytes@),
        res == Err::<Vec<u8>, ConvertError>(ConvertError::InvalidInput) <==> !guessable(bytes@),
        res == Err::<Vec<u8>, ConvertError>(ConvertError::UnsupportedFormat) <==> guessable(bytes@)
            && !decode_ok(bytes@),
{
    let (width, height) = get_final_image_size(board_size);
    let mut pixels = match decode_and_resize(bytes, width, height) {
        Ok(p) => p,
        Err(e) => { return Err(e) },
    };
    binarize(&mut pixels);
    Ok(pixels)
}

/// The textual form of the domino map: each run as its count followed by
/// its color letter.
fn board_to_labels(board: &Vec<Vec<Domino>>) -> (m: Vec<Vec<String>>)
    ensures
        m@.len() == board@.len(),
        forall|i: int|
            0 <= i < board@.len() ==> #[trigger] labels_view(m@[i]@) == row_labels(
                row_view(board@[i]@),
            ),
{
    let mut m: Vec<Vec<String>> = Vec::new();
    let mut i: usize = 0;
    while i < board.len()
        invariant
            i <= board@.len(),
            m@.len() == i,
            forall|t: int|
                0 <= t < i ==> #[trigger] labels_view(m@[t]@) == row_labels(row_view(board@[t]@)),
        decreases board@.len() - i,
    {
        let row = &board[i];
        let mut labels: Vec<String> = Vec::new();
        let mut j: usize = 0;
        while j < row.len()
            invariant
                j <= row@.len(),
                labels@.len() == j,
                forall|t: int|
                    0 <= t < j ==> #[trigger] labels@[t]@ == run_label(run_view(row@[t])),
            decreases row@.len() - j,
        {
            let s = label_of_run(&row[j]);
            labels.push(s);
            j += 1;
        }
        proof {
            assert(labels_view(labels@) =~= row_labels(row_view(row@)));
        }
        m.push(labels);
        i += 1;
    }
    m
}

/// The whole behavior of a conversion, success condition included: zero
/// columns or rows are rejected outright; a board whose rendered image
/// would exceed the JPEG dimension cap cannot be encoded and fails as an
/// internal error; otherwise the call succeeds exactly when the input
/// bytes decode, each failure names its cause, and every success satisfies
/// `convert_ok`.
pub open spec fn convert_post(
    bytes: Seq<u8>,
    c: u32,
    r: u32,
    res: Result<ConvertResult, ConvertError>,
) -> bool {
    &&& (res == Err::<ConvertResult, ConvertError>(ConvertError::InvalidBoardSize) <==> (c == 0
        || r == 0))
    &&& (res == Err::<ConvertResult, ConvertError>(ConvertError::EncodeFailure) <==> (1 <= c && 1
        <= r && (c > MAX_COLUMNS || r > MAX_ROWS)))
    &&& (res == Err::<ConvertResult, ConvertError>(ConvertError::InvalidInput) <==> (1 <= c
        <= MAX_COLUMNS && 1 <= r <= MAX_ROWS && !guessable(bytes)))
    &&& (res == Err::<ConvertResult, ConvertError>(ConvertError::UnsupportedFormat) <==> (1 <= c
        <= MAX_COLUMNS && 1 <= r <= MAX_ROWS && guessable(bytes) && !decode_ok(bytes)))
    &&& (res is Ok <==> (1 <= c <= MAX_COLUMNS && 1 <= r <= MAX_ROWS && decode_ok(bytes)))
    &&& (res matches Ok(out) ==> convert_ok(bytes, c, r, out))
}

/// Convert an encoded input image into a domino mosaic for the requested
/// board size: normalize the input to an exact-size binarized raster,
/// classify and repaint every cell, and return the re-encoded image, the
/// textual map, and the white and black cell totals. A board size with
/// zero columns or zero rows is rejected before any size arithmetic runs,
/// and one whose rendered image could never be encoded is rejected before
/// decoding starts.
pub fn convert(bytes: &[u8], board_size: (u32, u32)) -> (res: Result<ConvertResult, ConvertError>)
    requires
        board_size.0 <= MAX_SAFE_COLUMNS,
        board_size.1 <= MAX_SAFE_ROWS,
    ensures
        convert_post(bytes@, board_size.0, board_size.1, res),
{
    let columns = board_size.0;
    let rows = board_size.1;
    if columns == 0 || rows == 0 {
        return Err(ConvertError::InvalidBoardSize);
    }
    if columns > MAX_COLUMNS || rows > MAX_ROWS {
        return Err(ConvertError::EncodeFailure);
    }
    let ghost gw = target_width(columns as int);
    let ghost gh = target_height(rows as int);
    let (width, height) = get_final_image_size(board_size);

    let mut pixels = match normalize(bytes, board_size) {
        Ok(p) => p,
        Err(e) => { return Err(e) },
    };
    let ghost bin = pixels@;

    let (board, white, black) = render(&mut pixels, columns, rows);

    proof {
        assert forall|i: int| 0 <= i < gw * gh implies pixels@[i] == painted_of(
            bin,
            columns as int,
            gw,
            gh,
        )[i] by {
            lemma_fundamental_div_mod(i, gw);
            assert(0 <= i % gw < gw && 0 <= i / gw < gh) by (nonlinear_arith)
                requires
                    0 <= i < gw * gh,
                    gw > 0,
            ;
            assert(pixel_at(pixels@, gw, i % gw, i / gw) == pixels@[i]);
        }
        assert(pixels@ =~= painted_of(bin, columns as int, gw, gh));
    }

    let encoded = match encode_jpeg(&pixels, width, height) {
        Ok(b) => b,
        Err(e) => { return Err(e) },
    };

    let map = board_to_labels(&board);

    proof {
        assert(map_view(map@) =~= map_spec(bin, columns as int, rows as int));
        lemma_board_count_eq(bin, columns as int, rows as int, true);
        lemma_board_count_eq(bin, columns as int, rows as int, false);
    }

    Ok(ConvertResult { bytes: encoded, map, white_count: white, black_count: black })
}

} // verus!

