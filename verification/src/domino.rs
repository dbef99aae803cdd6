use vstd::prelude::*;
use vstd::string::StringExecFns;

verus! {

/// A merged run of consecutive same-colored domino cells within one row.
/// The count is the number of original cells the run stands for.
pub enum Domino {
    Black(u32),
    White(u32),
}

/// The mathematical value of a run: its color (true = white) and its count.
pub open spec fn run_view(d: Domino) -> (bool, int) {
    match d {
        Domino::Black(c) => (false, c as int),
        Domino::White(c) => (true, c as int),
    }
}

/// The mathematical value of one row of runs.
pub open spec fn row_view(row: Seq<Domino>) -> Seq<(bool, int)> {
    row.map_values(|d: Domino| run_view(d))
}

impl Domino {
    /// The pixel value this run's cells are painted with.
    pub fn color(&self) -> (c: u8)
        ensures
            c == (if run_view(*self).0 { 255u8 } else { 0u8 }),
    {
        match self {
            Domino::Black(_) => 0x0,
            Domino::White(_) => 0xff,
        }
    }
}

/// Appending one cell of color `white` to a row of runs: the last run grows
/// by one if it has the same color, otherwise a fresh singleton run starts.
pub open spec fn push_run(runs: Seq<(bool, int)>, white: bool) -> Seq<(bool, int)> {
    if runs.len() > 0 && runs.last().0 == white {
        runs.update(runs.len() - 1, (white, runs.last().1 + 1))
    } else {
        runs.push((white, 1))
    }
}

/// The run-length encoding of a row of cell colors, built left to right.
pub open spec fn runs_of(colors: Seq<bool>) -> Seq<(bool, int)>
    decreases colors.len(),
{
    if colors.len() == 0 {
        Seq::empty()
    } else {
        push_run(runs_of(colors.drop_last()), colors.last())
    }
}

/// Merge a new run into the row's last run: two runs of one color combine
/// into one whose count is the sum; runs of different colors both remain,
/// in order.
pub fn merge(first: Domino, second: Domino) -> (r: (Domino, Option<Domino>))
    requires
        run_view(first).1 + run_view(second).1 <= u32::MAX,
    ensures
        run_view(first).0 == run_view(second).0 ==> r == (
            (if run_view(first).0 {
                Domino::White((run_view(first).1 + run_view(second).1) as u32)
            } else {
                Domino::Black((run_view(first).1 + run_view(second).1) as u32)
            }),
            None::<Domino>,
        ),
        run_view(first).0 != run_view(second).0 ==> r == (first, Some(second)),
{
    match (first, second) {
        (Domino::Black(fc), Domino::Black(sc)) => (Domino::Black(fc + sc), None),
        (Domino::White(fc), Domino::White(sc)) => (Domino::White(fc + sc), None),
        (Domino::Black(fc), Domino::White(sc)) => (Domino::Black(fc), Some(Domino::White(sc))),
        (Domino::White(fc), Domino::Black(sc)) => (Domino::White(fc), Some(Domino::Black(sc))),
    }
}

/// Append the run for one freshly classified cell to the row being built,
/// merging it into the last run when the colors agree.
pub fn push_cell(row: &mut Vec<Domino>, white: bool)
    requires
        forall|i: int| 0 <= i < old(row)@.len() ==> 1 <= #[trigger] row_view(old(row)@)[i].1
            < u32::MAX,
    ensures
        row_view(final(row)@) == push_run(row_view(old(row)@), white),
{
    let d = if white {
        Domino::White(1)
    } else {
        Domino::Black(1)
    };
    match row.pop() {
        None => {
            row.push(d);
            proof {
                assert(row_view(row@) =~= push_run(row_view(old(row)@), white));
            }
        },
        Some(last) => {
            proof {
                assert(row_view(old(row)@)[old(row)@.len() - 1].1 == run_view(last).1);
            }
            let (a, b) = merge(last, d);
            row.push(a);
            match b {
                None => {
                    proof {
                        assert(row_view(row@) =~= push_run(row_view(old(row)@), white));
                    }
                },
                Some(b) => {
                    row.push(b);
                    proof {
                        assert(row_view(row@) =~= push_run(row_view(old(row)@), white));
                    }
                },
            }
        },
    }
}

/// How many cells of a row of cell colors have the given color.
pub open spec fn colors_count(colors: Seq<bool>, white: bool) -> int
    decreases colors.len(),
{
    if colors.len() == 0 {
        0
    } else {
        colors_count(colors.drop_last(), white) + if colors.last() == white {
            1int
        } else {
            0int
        }
    }
}

/// The sum of the counts of a row's runs with the given color.
pub open spec fn runs_count(runs: Seq<(bool, int)>, white: bool) -> int
    decreases runs.len(),
{
    if runs.len() == 0 {
        0
    } else {
        runs_count(runs.drop_last(), white) + if runs.last().0 == white {
            runs.last().1
        } else {
            0int
        }
    }
}

/// The sum of the counts of all of a row's runs.
pub open spec fn runs_total(runs: Seq<(bool, int)>) -> int
    decreases runs.len(),
{
    if runs.len() == 0 {
        0
    } else {
        runs_total(runs.drop_last()) + runs.last().1
    }
}

/// No two consecutive runs of a row share a color.
pub open spec fn no_adjacent_equal(runs: Seq<(bool, int)>) -> bool {
    forall|i: int| 0 <= i < runs.len() - 1 ==> (#[trigger] runs[i]).0 != runs[i + 1].0
}

/// A row has as many cells of each color as its run-length encoding says.
pub proof fn lemma_runs_count_eq(colors: Seq<bool>, white: bool)
    ensures
        runs_count(runs_of(colors), white) == colors_count(colors, white),
    decreases colors.len(),
{
    if colors.len() > 0 {
        lemma_runs_count_eq(colors.drop_last(), white);
        let prev = runs_of(colors.drop_last());
        let col = colors.last();
        if prev.len() > 0 && prev.last().0 == col {
            assert(push_run(prev, col).drop_last() =~= prev.drop_last());
        } else {
            assert(push_run(prev, col).drop_last() =~= prev);
        }
    }
}

/// Run-sum conservation: the counts of a row's runs sum to the number of
/// cells the row was built from.
pub proof fn lemma_runs_total(colors: Seq<bool>)
    ensures
        runs_total(runs_of(colors)) == colors.len(),
    decreases colors.len(),
{
    if colors.len() > 0 {
        lemma_runs_total(colors.drop_last());
        let prev = runs_of(colors.drop_last());
        let col = colors.last();
        if prev.len() > 0 && prev.last().0 == col {
            assert(push_run(prev, col).drop_last() =~= prev.drop_last());
        } else {
            assert(push_run(prev, col).drop_last() =~= prev);
        }
    }
}

/// A row's colors have as many cells in total as the row is long.
pub proof fn lemma_colors_count_total(colors: Seq<bool>)
    ensures
        colors_count(colors, true) + colors_count(colors, false) == colors.len(),
    decreases colors.len(),
{
    if colors.len() > 0 {
        lemma_colors_count_total(colors.drop_last());
    }
}

/// No two consecutive runs of a run-length encoding share a color: merging
/// by construction never leaves two adjacent runs of one color.
pub proof fn lemma_no_adjacent_equal_runs(colors: Seq<bool>)
    ensures
        no_adjacent_equal(runs_of(colors)),
    decreases colors.len(),
{
    if colors.len() > 0 {
        lemma_no_adjacent_equal_runs(colors.drop_last());
        let prev = runs_of(colors.drop_last());
        let col = colors.last();
        let cur = runs_of(colors);
        assert(cur == push_run(prev, col));
        assert forall|i: int| 0 <= i < cur.len() - 1 implies (#[trigger] cur[i]).0 != cur[i
            + 1].0 by {
            if prev.len() > 0 && prev.last().0 == col {
                assert(cur[i].0 == prev[i].0);
                assert(cur[i + 1].0 == prev[i + 1].0);
            } else {
                if i + 1 < prev.len() {
                    assert(cur[i].0 == prev[i].0);
                    assert(cur[i + 1].0 == prev[i + 1].0);
                } else {
                    assert(cur[i + 1] == (col, 1int));
                }
            }
        }
    }
}

/// Every run of a run-length row stands for at least one cell, and for no
/// more cells than the row has.
pub proof fn lemma_runs_counts_bounded(colors: Seq<bool>)
    ensures
        forall|i: int|
            0 <= i < runs_of(colors).len() ==> 1 <= #[trigger] runs_of(colors)[i].1
                <= colors.len(),
    decreases colors.len(),
{
    if colors.len() > 0 {
        lemma_runs_counts_bounded(colors.drop_last());
        assert(runs_of(colors) == push_run(runs_of(colors.drop_last()), colors.last()));
    }
}

/// The decimal digit character for a value between 0 and 9.
pub open spec fn dec_digit(d: int) -> char {
    if d == 0 {
        '0'
    } else if d == 1 {
        '1'
    } else if d == 2 {
        '2'
    } else if d == 3 {
        '3'
    } else if d == 4 {
        '4'
    } else if d == 5 {
        '5'
    } else if d == 6 {
        '6'
    } else if d == 7 {
        '7'
    } else if d == 8 {
        '8'
    } else {
        '9'
    }
}

/// The base-10 rendering of a nonnegative integer, most significant digit
/// first, with no sign and no leading zeros (except for 0 itself).
pub open spec fn dec_str(n: int) -> Seq<char>
    decreases n,
{
    if n < 10 {
        seq![dec_digit(n)]
    } else {
        dec_str(n / 10).push(dec_digit(n % 10))
    }
}

/// The textual form of a run: its count in decimal followed by `w` or `b`.
pub open spec fn run_label(run: (bool, int)) -> Seq<char> {
    dec_str(run.1) + seq![if run.0 { 'w' } else { 'b' }]
}

/// Relies on `u32`'s `Display` implementation: `to_string` renders the value
/// in base 10 with no sign, padding or leading zeros.
#[verifier::external_body]
fn u32_decimal(n: u32) -> (r: String)
    ensures
        r@ == dec_str(n as int),
{
    n.to_string()
}

/// The textual form of one run, as it appears in the domino map.
pub fn label_of_run(d: &Domino) -> (s: String)
    ensures
        s@ == run_label(run_view(*d)),
{
    match d {
        Domino::Black(c) => {
            let mut s = u32_decimal(*c);
            s.append("b");
            proof {
                reveal_strlit("b");
                assert(s@ =~= run_label(run_view(*d)));
            }
            s
        },
        Domino::White(c) => {
            let mut s = u32_decimal(*c);
            s.append("w");
            proof {
                reveal_strlit("w");
                assert(s@ =~= run_label(run_view(*d)));
            }
            s
        },
    }
}

} // verus!
