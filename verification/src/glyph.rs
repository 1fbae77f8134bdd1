//! The bitmap font of the bar: glyphs of five columns and seven rows, turned
//! into as few rectangles as possible.

use crate::geometry::Rect;
use crate::text;
use vstd::prelude::*;

verus! {

/// Number of columns of a glyph.
pub const GLYPH_COLS: i32 = 5;

/// Number of rows of a glyph.
pub const GLYPH_ROWS: i32 = 7;

/// The rows of a glyph, top to bottom. The lowest five bits of a row are its
/// pixels, the leftmost one in the highest of them.
pub type Glyph = [u8; 7];

/// The rows of the glyph for a character, where there is one.
pub open spec fn glyph_table(c: char) -> Option<Seq<u8>> {
    match c {
        '0' => Some(seq![0x0Eu8, 0x11, 0x11, 0x11, 0x11, 0x11, 0x0E]),
        '1' => Some(seq![0x04u8, 0x0C, 0x04, 0x04, 0x04, 0x04, 0x0E]),
        '2' => Some(seq![0x0Eu8, 0x11, 0x01, 0x02, 0x04, 0x08, 0x1F]),
        '3' => Some(seq![0x0Eu8, 0x11, 0x01, 0x06, 0x01, 0x11, 0x0E]),
        '4' => Some(seq![0x02u8, 0x06, 0x0A, 0x12, 0x1F, 0x02, 0x02]),
        '5' => Some(seq![0x1Fu8, 0x10, 0x1E, 0x01, 0x01, 0x11, 0x0E]),
        '6' => Some(seq![0x0Eu8, 0x10, 0x1E, 0x11, 0x11, 0x11, 0x0E]),
        '7' => Some(seq![0x1Fu8, 0x01, 0x02, 0x04, 0x08, 0x08, 0x08]),
        '8' => Some(seq![0x0Eu8, 0x11, 0x11, 0x0E, 0x11, 0x11, 0x0E]),
        '9' => Some(seq![0x0Eu8, 0x11, 0x11, 0x0F, 0x01, 0x11, 0x0E]),
        'A' => Some(seq![0x0Eu8, 0x11, 0x11, 0x1F, 0x11, 0x11, 0x11]),
        'B' => Some(seq![0x1Eu8, 0x11, 0x11, 0x1E, 0x11, 0x11, 0x1E]),
        'C' => Some(seq![0x0Eu8, 0x11, 0x10, 0x10, 0x10, 0x11, 0x0E]),
        'D' => Some(seq![0x1Eu8, 0x11, 0x11, 0x11, 0x11, 0x11, 0x1E]),
        'E' => Some(seq![0x1Fu8, 0x10, 0x10, 0x1E, 0x10, 0x10, 0x1F]),
        'F' => Some(seq![0x1Fu8, 0x10, 0x10, 0x1E, 0x10, 0x10, 0x10]),
        'G' => Some(seq![0x0Eu8, 0x11, 0x10, 0x17, 0x11, 0x11, 0x0E]),
        'H' => Some(seq![0x11u8, 0x11, 0x11, 0x1F, 0x11, 0x11, 0x11]),
        'I' => Some(seq![0x0Eu8, 0x04, 0x04, 0x04, 0x04, 0x04, 0x0E]),
        'J' => Some(seq![0x07u8, 0x02, 0x02, 0x02, 0x02, 0x12, 0x0C]),
        'K' => Some(seq![0x11u8, 0x12, 0x14, 0x18, 0x14, 0x12, 0x11]),
        'L' => Some(seq![0x10u8, 0x10, 0x10, 0x10, 0x10, 0x10, 0x1F]),
        'M' => Some(seq![0x11u8, 0x1B, 0x15, 0x11, 0x11, 0x11, 0x11]),
        'N' => Some(seq![0x11u8, 0x19, 0x15, 0x13, 0x11, 0x11, 0x11]),
        'O' => Some(seq![0x0Eu8, 0x11, 0x11, 0x11, 0x11, 0x11, 0x0E]),
        'P' => Some(seq![0x1Eu8, 0x11, 0x11, 0x1E, 0x10, 0x10, 0x10]),
        'Q' => Some(seq![0x0Eu8, 0x11, 0x11, 0x11, 0x15, 0x12, 0x0D]),
        'R' => Some(seq![0x1Eu8, 0x11, 0x11, 0x1E, 0x14, 0x12, 0x11]),
        'S' => Some(seq![0x0Eu8, 0x10, 0x10, 0x0E, 0x01, 0x01, 0x0E]),
        'T' => Some(seq![0x1Fu8, 0x04, 0x04, 0x04, 0x04, 0x04, 0x04]),
        'U' => Some(seq![0x11u8, 0x11, 0x11, 0x11, 0x11, 0x11, 0x0E]),
        'V' => Some(seq![0x11u8, 0x11, 0x11, 0x11, 0x11, 0x0A, 0x04]),
        'W' => Some(seq![0x11u8, 0x11, 0x11, 0x15, 0x15, 0x1B, 0x11]),
        'X' => Some(seq![0x11u8, 0x11, 0x0A, 0x04, 0x0A, 0x11, 0x11]),
        'Y' => Some(seq![0x11u8, 0x11, 0x0A, 0x04, 0x04, 0x04, 0x04]),
        'Z' => Some(seq![0x1Fu8, 0x01, 0x02, 0x04, 0x08, 0x10, 0x1F]),
        '%' => Some(seq![0x18u8, 0x18, 0x02, 0x04, 0x08, 0x03, 0x03]),
        '+' => Some(seq![0x04u8, 0x04, 0x04, 0x1F, 0x04, 0x04, 0x04]),
        '-' | '_' => Some(seq![0x00u8, 0x00, 0x00, 0x0E, 0x00, 0x00, 0x00]),
        ':' => Some(seq![0x00u8, 0x04, 0x00, 0x00, 0x04, 0x00, 0x00]),
        '.' => Some(seq![0x00u8, 0x00, 0x00, 0x00, 0x00, 0x00, 0x04]),
        '|' => Some(seq![0x04u8, 0x04, 0x04, 0x04, 0x04, 0x04, 0x04]),
        _ => None,
    }
}

fn rows(a: u8, b: u8, c: u8, d: u8, e: u8, f: u8, g: u8) -> (r: Glyph)
    ensures
        r@ == seq![a, b, c, d, e, f, g],
{
    let r: Glyph = [a, b, c, d, e, f, g];
    assert(r@ =~= seq![a, b, c, d, e, f, g]);
    r
}

/// The glyph for a character: digits, capital letters and a few signs.
pub fn glyph_for(c: char) -> (r: Option<Glyph>)
    ensures
        match r {
            Some(glyph) => glyph_table(c) == Some(glyph@),
            None => glyph_table(c) is None,
        },
{
    match c {
        '0' => Some(rows(0x0E, 0x11, 0x11, 0x11, 0x11, 0x11, 0x0E)),
        '1' => Some(rows(0x04, 0x0C, 0x04, 0x04, 0x04, 0x04, 0x0E)),
        '2' => Some(rows(0x0E, 0x11, 0x01, 0x02, 0x04, 0x08, 0x1F)),
        '3' => Some(rows(0x0E, 0x11, 0x01, 0x06, 0x01, 0x11, 0x0E)),
        '4' => Some(rows(0x02, 0x06, 0x0A, 0x12, 0x1F, 0x02, 0x02)),
        '5' => Some(rows(0x1F, 0x10, 0x1E, 0x01, 0x01, 0x11, 0x0E)),
        '6' => Some(rows(0x0E, 0x10, 0x1E, 0x11, 0x11, 0x11, 0x0E)),
        '7' => Some(rows(0x1F, 0x01, 0x02, 0x04, 0x08, 0x08, 0x08)),
        '8' => Some(rows(0x0E, 0x11, 0x11, 0x0E, 0x11, 0x11, 0x0E)),
        '9' => Some(rows(0x0E, 0x11, 0x11, 0x0F, 0x01, 0x11, 0x0E)),
        'A' => Some(rows(0x0E, 0x11, 0x11, 0x1F, 0x11, 0x11, 0x11)),
        'B' => Some(rows(0x1E, 0x11, 0x11, 0x1E, 0x11, 0x11, 0x1E)),
        'C' => Some(rows(0x0E, 0x11, 0x10, 0x10, 0x10, 0x11, 0x0E)),
        'D' => Some(rows(0x1E, 0x11, 0x11, 0x11, 0x11, 0x11, 0x1E)),
        'E' => Some(rows(0x1F, 0x10, 0x10, 0x1E, 0x10, 0x10, 0x1F)),
        'F' => Some(rows(0x1F, 0x10, 0x10, 0x1E, 0x10, 0x10, 0x10)),
        'G' => Some(rows(0x0E, 0x11, 0x10, 0x17, 0x11, 0x11, 0x0E)),
        'H' => Some(rows(0x11, 0x11, 0x11, 0x1F, 0x11, 0x11, 0x11)),
        'I' => Some(rows(0x0E, 0x04, 0x04, 0x04, 0x04, 0x04, 0x0E)),
        'J' => Some(rows(0x07, 0x02, 0x02, 0x02, 0x02, 0x12, 0x0C)),
        'K' => Some(rows(0x11, 0x12, 0x14, 0x18, 0x14, 0x12, 0x11)),
        'L' => Some(rows(0x10, 0x10, 0x10, 0x10, 0x10, 0x10, 0x1F)),
        'M' => Some(rows(0x11, 0x1B, 0x15, 0x11, 0x11, 0x11, 0x11)),
        'N' => Some(rows(0x11, 0x19, 0x15, 0x13, 0x11, 0x11, 0x11)),
        'O' => Some(rows(0x0E, 0x11, 0x11, 0x11, 0x11, 0x11, 0x0E)),
        'P' => Some(rows(0x1E, 0x11, 0x11, 0x1E, 0x10, 0x10, 0x10)),
        'Q' => Some(rows(0x0E, 0x11, 0x11, 0x11, 0x15, 0x12, 0x0D)),
        'R' => Some(rows(0x1E, 0x11, 0x11, 0x1E, 0x14, 0x12, 0x11)),
        'S' => Some(rows(0x0E, 0x10, 0x10, 0x0E, 0x01, 0x01, 0x0E)),
        'T' => Some(rows(0x1F, 0x04, 0x04, 0x04, 0x04, 0x04, 0x04)),
        'U' => Some(rows(0x11, 0x11, 0x11, 0x11, 0x11, 0x11, 0x0E)),
        'V' => Some(rows(0x11, 0x11, 0x11, 0x11, 0x11, 0x0A, 0x04)),
        'W' => Some(rows(0x11, 0x11, 0x11, 0x15, 0x15, 0x1B, 0x11)),
        'X' => Some(rows(0x11, 0x11, 0x0A, 0x04, 0x0A, 0x11, 0x11)),
        'Y' => Some(rows(0x11, 0x11, 0x0A, 0x04, 0x04, 0x04, 0x04)),
        'Z' => Some(rows(0x1F, 0x01, 0x02, 0x04, 0x08, 0x10, 0x1F)),
        '%' => Some(rows(0x18, 0x18, 0x02, 0x04, 0x08, 0x03, 0x03)),
        '+' => Some(rows(0x04, 0x04, 0x04, 0x1F, 0x04, 0x04, 0x04)),
        '-' | '_' => Some(rows(0x00, 0x00, 0x00, 0x0E, 0x00, 0x00, 0x00)),
        ':' => Some(rows(0x00, 0x04, 0x00, 0x00, 0x04, 0x00, 0x00)),
        '.' => Some(rows(0x00, 0x00, 0x00, 0x00, 0x00, 0x00, 0x04)),
        '|' => Some(rows(0x04, 0x04, 0x04, 0x04, 0x04, 0x04, 0x04)),
        _ => None,
    }
}

/// Weight of the bit that stands for a column.
pub open spec fn weight(col: int) -> int {
    if col == 0 {
        16
    } else if col == 1 {
        8
    } else if col == 2 {
        4
    } else if col == 3 {
        2
    } else {
        1
    }
}

/// Whether the pixel at a column of a row is lit.
pub open spec fn lit(bits: u8, col: int) -> bool {
    0 <= col < GLYPH_COLS && (bits as int / weight(col)) % 2 == 1
}

/// The first column from `col` on whose pixel is not lit.
pub open spec fn run_end(bits: u8, col: int) -> int
    decreases GLYPH_COLS - col,
{
    if col < GLYPH_COLS && lit(bits, col) {
        run_end(bits, col + 1)
    } else {
        col
    }
}

/// The runs of lit pixels of a row from `col` on: where each starts and how
/// long it is.
pub open spec fn runs(bits: u8, col: int) -> Seq<(i32, i32)>
    decreases GLYPH_COLS - col,
    via runs_decreases
{
    if col >= GLYPH_COLS {
        Seq::empty()
    } else if lit(bits, col) {
        seq![(col as i32, (run_end(bits, col) - col) as i32)] + runs(bits, run_end(bits, col))
    } else {
        runs(bits, col + 1)
    }
}

#[via_fn]
proof fn runs_decreases(bits: u8, col: int) {
    if col < GLYPH_COLS && lit(bits, col) {
        lemma_run_end(bits, col);
    }
}

proof fn lemma_run_end(bits: u8, col: int)
    requires
        0 <= col <= GLYPH_COLS,
    ensures
        col <= run_end(bits, col) <= GLYPH_COLS,
        lit(bits, col) ==> run_end(bits, col) > col,
        forall|c: int| col <= c < run_end(bits, col) ==> #[trigger] lit(bits, c),
        !lit(bits, run_end(bits, col)),
    decreases GLYPH_COLS - col,
{
    if col < GLYPH_COLS && lit(bits, col) {
        lemma_run_end(bits, col + 1);
    }
}

/// How many rows from `row` on, at least `height`, have the same runs.
pub open spec fn same_rows(glyph: Seq<u8>, row: int, height: int) -> int
    decreases glyph.len() - row - height,
{
    if row + height < glyph.len() && runs(glyph[row + height], 0) == runs(glyph[row], 0) {
        same_rows(glyph, row, height + 1)
    } else {
        height
    }
}

/// The rectangles of a glyph from `row` on, in pixels of the glyph.
pub open spec fn rects_from(glyph: Seq<u8>, row: int) -> Seq<Rect>
    decreases glyph.len() - row,
    via rects_from_decreases
{
    if row >= glyph.len() {
        Seq::empty()
    } else {
        let line = runs(glyph[row], 0);
        if line.len() == 0 {
            rects_from(glyph, row + 1)
        } else {
            let height = same_rows(glyph, row, 1);
            band(line, row, height) + rects_from(glyph, row + height)
        }
    }
}

#[via_fn]
proof fn rects_from_decreases(glyph: Seq<u8>, row: int) {
    if row < glyph.len() && runs(glyph[row], 0).len() > 0 {
        lemma_same_rows(glyph, row, 1);
    }
}

/// Rectangles for the runs of a band of equal rows.
pub open spec fn band(line: Seq<(i32, i32)>, row: int, height: int) -> Seq<Rect> {
    Seq::new(
        line.len(),
        |i: int| Rect { x: line[i].0, y: row as i32, w: line[i].1, h: height as i32 },
    )
}

proof fn lemma_same_rows(glyph: Seq<u8>, row: int, height: int)
    requires
        height >= 1,
    ensures
        same_rows(glyph, row, height) >= height,
        row + height <= glyph.len() ==> row + same_rows(glyph, row, height) <= glyph.len(),
        forall|r: int|
            row + height <= r < row + same_rows(glyph, row, height) ==> runs(
                #[trigger] glyph[r],
                0,
            ) == runs(glyph[row], 0),
    decreases glyph.len() - row - height,
{
    if row + height < glyph.len() && runs(glyph[row + height], 0) == runs(glyph[row], 0) {
        lemma_same_rows(glyph, row, height + 1);
    }
}

fn is_lit(bits: u8, col: i32) -> (r: bool)
    requires
        0 <= col < GLYPH_COLS,
    ensures
        r == lit(bits, col as int),
{
    let weight: u8 = if col == 0 {
        16
    } else if col == 1 {
        8
    } else if col == 2 {
        4
    } else if col == 3 {
        2
    } else {
        1
    };
    (bits / weight) % 2 == 1
}

/// The runs of lit pixels of a row.
fn row_runs(bits: u8) -> (line: Vec<(i32, i32)>)
    ensures
        line@ == runs(bits, 0),
{
    let mut line: Vec<(i32, i32)> = Vec::new();
    let mut col: i32 = 0;
    assert(line@ + runs(bits, 0) =~= runs(bits, 0));
    while col < GLYPH_COLS
        invariant
            0 <= col <= GLYPH_COLS,
            line@ + runs(bits, col as int) == runs(bits, 0),
        decreases GLYPH_COLS - col,
    {
        if is_lit(bits, col) {
            let start: i32 = col;
            proof {
                lemma_run_end(bits, start as int);
            }
            while col < GLYPH_COLS && is_lit(bits, col)
                invariant
                    0 <= start <= col <= GLYPH_COLS,
                    run_end(bits, start as int) == run_end(bits, col as int),
                decreases GLYPH_COLS - col,
            {
                col = col + 1;
            }
            assert(col == run_end(bits, start as int));
            let ghost before = line@;
            line.push((start, col - start));
            assert(line@ + runs(bits, col as int) =~= before + (seq![(start, (col - start) as i32)]
                + runs(bits, col as int)));
        } else {
            col = col + 1;
        }
    }
    assert(line@ + runs(bits, col as int) =~= line@);
    line
}

fn same_runs(a: &Vec<(i32, i32)>, b: &Vec<(i32, i32)>) -> (r: bool)
    ensures
        r == (a@ == b@),
{
    if a.len() != b.len() {
        return false;
    }
    let mut i: usize = 0;
    while i < a.len()
        invariant
            i <= a@.len(),
            a@.len() == b@.len(),
            forall|k: int| 0 <= k < i ==> a@[k] == b@[k],
        decreases a@.len() - i,
    {
        if a[i].0 != b[i].0 || a[i].1 != b[i].1 {
            return false;
        }
        i = i + 1;
    }
    assert(a@ =~= b@);
    true
}

/// The rectangles that make up a glyph, in pixels of the glyph. Runs of lit
/// pixels become one rectangle each, and rows with the same runs that follow
/// each other share theirs.
pub fn glyph_rects(glyph: &Glyph) -> (rects: Vec<Rect>)
    ensures
        rects@ == rects_from(glyph@, 0),
{
    let mut lines: Vec<Vec<(i32, i32)>> = Vec::new();
    let mut i: usize = 0;
    while i < 7
        invariant
            i <= 7,
            lines@.len() == i,
            forall|k: int| 0 <= k < i ==> (#[trigger] lines@[k])@ == runs(glyph@[k], 0),
        decreases 7 - i,
    {
        lines.push(row_runs(glyph[i]));
        i = i + 1;
    }
    let mut rects: Vec<Rect> = Vec::new();
    let mut row: usize = 0;
    assert(rects@ + rects_from(glyph@, 0) =~= rects_from(glyph@, 0));
    while row < 7
        invariant
            row <= 7,
            lines@.len() == 7,
            forall|k: int| 0 <= k < 7 ==> (#[trigger] lines@[k])@ == runs(glyph@[k], 0),
            rects@ + rects_from(glyph@, row as int) == rects_from(glyph@, 0),
        decreases 7 - row,
    {
        assert(lines@[row as int]@ == runs(glyph@[row as int], 0));
        if lines[row].len() == 0 {
            row = row + 1;
        } else {
            let mut height: usize = 1;
            while row + height < 7 && same_runs(&lines[row + height], &lines[row])
                invariant
                    1 <= height,
                    row + height <= 7,
                    lines@.len() == 7,
                    forall|k: int| 0 <= k < 7 ==> (#[trigger] lines@[k])@ == runs(glyph@[k], 0),
                    same_rows(glyph@, row as int, 1) == same_rows(glyph@, row as int, height as int),
                decreases 7 - height,
            {
                assert(lines@[row + height]@ == runs(glyph@[row + height], 0));
                height = height + 1;
            }
            if row + height < 7 {
                assert(lines@[row + height]@ == runs(glyph@[row + height], 0));
            }
            assert(same_rows(glyph@, row as int, 1) == height);
            let ghost before = rects@;
            let ghost line = runs(glyph@[row as int], 0);
            let mut k: usize = 0;
            while k < lines[row].len()
                invariant
                    row < 7,
                    row + height <= 7,
                    lines@.len() == 7,
                    lines@[row as int]@ == line,
                    k <= line.len(),
                    rects@ == before + band(line, row as int, height as int).take(k as int),
                decreases line.len() - k,
            {
                let run: (i32, i32) = lines[row][k];
                rects.push(Rect { x: run.0, y: row as i32, w: run.1, h: height as i32 });
                k = k + 1;
                assert(rects@ =~= before + band(line, row as int, height as int).take(k as int));
            }
            assert(band(line, row as int, height as int).take(k as int) =~= band(
                line,
                row as int,
                height as int,
            ));
            assert(rects@ + rects_from(glyph@, row + height) =~= before + (band(
                line,
                row as int,
                height as int,
            ) + rects_from(glyph@, row + height)));
            row = row + height;
        }
    }
    assert(rects@ + rects_from(glyph@, row as int) =~= rects@);
    rects
}

/// Size of a glyph pixel when glyphs are `height` tall; at least one.
pub open spec fn pixel_size(height: int) -> int {
    if height >= 2 * GLYPH_ROWS {
        height / GLYPH_ROWS as int
    } else {
        1
    }
}

/// How far a character moves the pen: half a glyph for a space, a glyph for
/// what has one, nothing for the rest.
pub open spec fn advance(c: char, height: int) -> int {
    if c == ' ' {
        (GLYPH_COLS * pixel_size(height)) / 2
    } else if glyph_table(c) is Some {
        GLYPH_COLS * pixel_size(height)
    } else {
        0
    }
}

/// Where the pen is after `s`, when it started at `x`.
pub open spec fn pen(s: Seq<char>, x: int, height: int, gap: int) -> int
    decreases s.len(),
{
    if s.len() == 0 {
        x
    } else {
        pen(s.drop_last(), x, height, gap) + (advance(s.last(), height) + gap)
    }
}

/// A glyph's rectangles at a place on the bar.
pub open spec fn placed(rects: Seq<Rect>, x: int, y: int, px: int) -> Seq<Rect> {
    Seq::new(
        rects.len(),
        |i: int|
            Rect {
                x: (x + rects[i].x * px) as i32,
                y: (y + rects[i].y * px) as i32,
                w: (rects[i].w * px) as i32,
                h: (rects[i].h * px) as i32,
            },
    )
}

/// The rectangles of one character.
pub open spec fn char_rects(c: char, x: int, y: int, height: int) -> Seq<Rect> {
    match glyph_table(c) {
        Some(glyph) => placed(rects_from(glyph, 0), x, y, pixel_size(height)),
        None => Seq::empty(),
    }
}

/// The rectangles of a text that starts at `x`.
pub open spec fn text_rects(s: Seq<char>, x: int, y: int, height: int, gap: int) -> Seq<Rect>
    decreases s.len(),
{
    if s.len() == 0 {
        Seq::empty()
    } else {
        text_rects(s.drop_last(), x, y, height, gap) + char_rects(
            s.last(),
            pen(s.drop_last(), x, height, gap),
            y,
            height,
        )
    }
}

/// Width of a text: its advances, with a gap between characters.
pub open spec fn text_width(s: Seq<char>, height: int, gap: int) -> int {
    let w = pen(s, 0, height, gap);
    if w > 0 {
        w - gap
    } else {
        w
    }
}

/// Drawing a text stays within `i32`.
pub open spec fn can_draw(s: Seq<char>, x: int, y: int, height: int, gap: int) -> bool {
    let px = pixel_size(height);
    &&& GLYPH_ROWS * px <= i32::MAX
    &&& i32::MIN <= y
    &&& y + GLYPH_ROWS * px <= i32::MAX
    &&& forall|k: int|
        0 <= k <= s.len() ==> i32::MIN <= #[trigger] pen(s.take(k), x, height, gap) && pen(
            s.take(k),
            x,
            height,
            gap,
        ) + GLYPH_COLS * px <= i32::MAX
    &&& forall|k: int|
        0 <= k < s.len() ==> i32::MIN <= advance(#[trigger] s[k], height) + gap <= i32::MAX
}

/// Measuring a text stays within `i32`.
pub open spec fn can_measure(s: Seq<char>, height: int, gap: int) -> bool {
    &&& GLYPH_COLS * pixel_size(height) <= i32::MAX
    &&& forall|k: int|
        0 <= k <= s.len() ==> i32::MIN <= #[trigger] pen(s.take(k), 0, height, gap) <= i32::MAX
    &&& forall|k: int|
        0 <= k < s.len() ==> i32::MIN <= advance(#[trigger] s[k], height) + gap <= i32::MAX
    &&& pen(s, 0, height, gap) > 0 ==> pen(s, 0, height, gap) - gap <= i32::MAX
}

/// Size of a glyph pixel when glyphs are `height` tall.
pub fn glyph_pixel_size(height: i32) -> (px: i32)
    ensures
        px == pixel_size(height as int),
        px >= 1,
{
    if height >= 14 {
        (height as u32 / 7) as i32
    } else {
        1
    }
}

/// How far a character moves the pen.
pub fn glyph_advance(c: char, height: i32) -> (w: i32)
    requires
        GLYPH_COLS * pixel_size(height as int) <= i32::MAX,
    ensures
        w == advance(c, height as int),
        w >= 0,
{
    let px: i32 = glyph_pixel_size(height);
    if c == ' ' {
        ((GLYPH_COLS * px) as u32 / 2) as i32
    } else if glyph_for(c).is_some() {
        GLYPH_COLS * px
    } else {
        0
    }
}

/// Width of a text.
pub fn measure_text(s: &str, height: i32, gap: i32) -> (w: i32)
    requires
        can_measure(s@, height as int, gap as int),
    ensures
        w == text_width(s@, height as int, gap as int),
{
    let chars: Vec<char> = text::chars_of(s);
    let mut w: i32 = 0;
    let mut i: usize = 0;
    assert(s@.take(0) =~= Seq::<char>::empty());
    while i < chars.len()
        invariant
            i <= chars@.len(),
            chars@ == s@,
            can_measure(s@, height as int, gap as int),
            w == pen(s@.take(i as int), 0, height as int, gap as int),
        decreases chars@.len() - i,
    {
        let c: char = chars[i];
        let ghost next = s@.take(i + 1);
        assert(next.drop_last() =~= s@.take(i as int));
        assert(next.last() == c);
        assert(s@[i as int] == c);
        assert(i32::MIN <= pen(next, 0, height as int, gap as int) <= i32::MAX);
        w = w + (glyph_advance(c, height) + gap);
        i = i + 1;
    }
    assert(s@.take(i as int) =~= s@);
    if w > 0 {
        w = w - gap;
    }
    w
}

/// Draws a text and says where the pen is afterwards.
pub fn draw_text(rects: &mut Vec<Rect>, s: &str, x: i32, y: i32, height: i32, gap: i32) -> (end: i32)
    requires
        can_draw(s@, x as int, y as int, height as int, gap as int),
    ensures
        end == pen(s@, x as int, height as int, gap as int),
        final(rects)@ == old(rects)@ + text_rects(
            s@,
            x as int,
            y as int,
            height as int,
            gap as int,
        ),
{
    let px: i32 = glyph_pixel_size(height);
    let chars: Vec<char> = text::chars_of(s);
    let mut at: i32 = x;
    let mut i: usize = 0;
    assert(s@.take(0) =~= Seq::<char>::empty());
    assert(rects@ =~= old(rects)@ + text_rects(
        s@.take(0),
        x as int,
        y as int,
        height as int,
        gap as int,
    ));
    while i < chars.len()
        invariant
            i <= chars@.len(),
            chars@ == s@,
            px == pixel_size(height as int),
            can_draw(s@, x as int, y as int, height as int, gap as int),
            at == pen(s@.take(i as int), x as int, height as int, gap as int),
            rects@ == old(rects)@ + text_rects(
                s@.take(i as int),
                x as int,
                y as int,
                height as int,
                gap as int,
            ),
        decreases chars@.len() - i,
    {
        let c: char = chars[i];
        let ghost next = s@.take(i + 1);
        let ghost before = rects@;
        assert(next.drop_last() =~= s@.take(i as int));
        assert(next.last() == c);
        assert(s@[i as int] == c);
        assert(i32::MIN <= pen(next, x as int, height as int, gap as int));
        assert(i32::MIN <= pen(s@.take(i as int), x as int, height as int, gap as int));
        if let Some(glyph) = glyph_for(c) {
            let parts: Vec<Rect> = glyph_rects(&glyph);
            push_placed(rects, &parts, at, y, px, Ghost(glyph@));
        }
        assert(rects@ =~= before + char_rects(c, at as int, y as int, height as int));
        assert(rects@ =~= old(rects)@ + text_rects(
            next,
            x as int,
            y as int,
            height as int,
            gap as int,
        ));
        at = at + (glyph_advance(c, height) + gap);
        i = i + 1;
    }
    assert(s@.take(i as int) =~= s@);
    at
}

fn push_placed(
    rects: &mut Vec<Rect>,
    parts: &Vec<Rect>,
    x: i32,
    y: i32,
    px: i32,
    Ghost(glyph): Ghost<Seq<u8>>,
)
    requires
        glyph.len() == GLYPH_ROWS,
        parts@ == rects_from(glyph, 0),
        px >= 1,
        GLYPH_ROWS * px <= i32::MAX,
        x + GLYPH_COLS * px <= i32::MAX,
        y + GLYPH_ROWS * px <= i32::MAX,
    ensures
        final(rects)@ == old(rects)@ + placed(parts@, x as int, y as int, px as int),
{
    proof {
        lemma_rects_below(glyph, 0);
    }
    let mut i: usize = 0;
    let ghost all = placed(parts@, x as int, y as int, px as int);
    assert(rects@ =~= old(rects)@ + all.take(0));
    while i < parts.len()
        invariant
            i <= parts@.len(),
            all == placed(parts@, x as int, y as int, px as int),
            rects@ == old(rects)@ + all.take(i as int),
            px >= 1,
            GLYPH_ROWS * px <= i32::MAX,
            x + GLYPH_COLS * px <= i32::MAX,
            y + GLYPH_ROWS * px <= i32::MAX,
            forall|k: int|
                0 <= k < parts@.len() ==> {
                    let r = #[trigger] parts@[k];
                    &&& 0 <= r.y
                    &&& 0 < r.h
                    &&& r.y + r.h <= GLYPH_ROWS
                    &&& 0 <= r.x
                    &&& 0 < r.w
                    &&& r.x + r.w <= GLYPH_COLS
                },
        decreases parts@.len() - i,
    {
        let r: Rect = parts[i];
        proof {
            assert(0 <= r.x * px <= GLYPH_COLS * px) by (nonlinear_arith)
                requires
                    0 <= r.x <= GLYPH_COLS,
                    px >= 1,
            ;
            assert(0 <= r.y * px <= GLYPH_ROWS * px) by (nonlinear_arith)
                requires
                    0 <= r.y <= GLYPH_ROWS,
                    px >= 1,
            ;
            assert(0 <= r.w * px <= GLYPH_ROWS * px) by (nonlinear_arith)
                requires
                    0 <= r.w <= GLYPH_ROWS,
                    px >= 1,
            ;
            assert(0 <= r.h * px <= GLYPH_ROWS * px) by (nonlinear_arith)
                requires
                    0 <= r.h <= GLYPH_ROWS,
                    px >= 1,
            ;
        }
        rects.push(Rect { x: x + r.x * px, y: y + r.y * px, w: r.w * px, h: r.h * px });
        i = i + 1;
        assert(rects@ =~= old(rects)@ + all.take(i as int));
    }
    assert(all.take(i as int) =~= all);
}

/// Whether a rectangle in glyph pixels covers a pixel.
pub open spec fn covers(rect: Rect, col: int, row: int) -> bool {
    rect.x <= col < rect.x + rect.w && rect.y <= row < rect.y + rect.h
}

/// The runs from `col` on are the lit pixels from `col` on, and no two of them
/// share one.
proof fn lemma_runs(bits: u8, col: int)
    requires
        0 <= col <= GLYPH_COLS,
    ensures
        forall|i: int|
            0 <= i < runs(bits, col).len() ==> col <= (#[trigger] runs(bits, col)[i]).0 && runs(
                bits,
                col,
            )[i].1 > 0 && runs(bits, col)[i].0 + runs(bits, col)[i].1 <= GLYPH_COLS,
        forall|i: int, j: int|
            0 <= i < j < runs(bits, col).len() ==> (#[trigger] runs(bits, col)[i]).0 + runs(
                bits,
                col,
            )[i].1 <= (#[trigger] runs(bits, col)[j]).0,
        forall|c: int|
            col <= c < GLYPH_COLS ==> (#[trigger] lit(bits, c) <==> exists|i: int|
                0 <= i < runs(bits, col).len() && (#[trigger] runs(bits, col)[i]).0 <= c < runs(
                    bits,
                    col,
                )[i].0 + runs(bits, col)[i].1),
    decreases GLYPH_COLS - col,
{
    if col < GLYPH_COLS {
        if lit(bits, col) {
            let end = run_end(bits, col);
            lemma_run_end(bits, col);
            lemma_runs(bits, end);
            let rest = runs(bits, end);
            let all = runs(bits, col);
            assert(all[0] == (col as i32, (end - col) as i32));
            assert forall|i: int| 0 < i < all.len() implies #[trigger] all[i] == rest[i - 1] by {}
            assert forall|i: int| 0 <= i < all.len() implies col <= (#[trigger] all[i]).0 && all[i].1
                > 0 && all[i].0 + all[i].1 <= GLYPH_COLS by {
                if i > 0 {
                    assert(all[i] == rest[i - 1]);
                }
            }
            assert forall|i: int, j: int| 0 <= i < j < all.len() implies (#[trigger] all[i]).0
                + all[i].1 <= (#[trigger] all[j]).0 by {
                assert(all[j] == rest[j - 1]);
                if i > 0 {
                    assert(all[i] == rest[i - 1]);
                }
            }
            assert forall|c: int| col <= c < GLYPH_COLS implies (#[trigger] lit(bits, c)
                <==> exists|i: int|
                0 <= i < all.len() && (#[trigger] all[i]).0 <= c < all[i].0 + all[i].1) by {
                if c < end {
                    assert(all[0].0 <= c < all[0].0 + all[0].1);
                } else {
                    if lit(bits, c) {
                        let i = choose|i: int|
                            0 <= i < rest.len() && (#[trigger] rest[i]).0 <= c < rest[i].0
                                + rest[i].1;
                        assert(all[i + 1] == rest[i]);
                    }
                    if exists|i: int|
                        0 <= i < all.len() && (#[trigger] all[i]).0 <= c < all[i].0 + all[i].1 {
                        let i = choose|i: int|
                            0 <= i < all.len() && (#[trigger] all[i]).0 <= c < all[i].0 + all[i].1;
                        assert(i > 0);
                        assert(all[i] == rest[i - 1]);
                    }
                }
            }
        } else {
            lemma_runs(bits, col + 1);
            let all = runs(bits, col);
            assert(all == runs(bits, col + 1));
            assert forall|i: int| 0 <= i < all.len() implies col <= (#[trigger] all[i]).0 by {
                assert(col + 1 <= runs(bits, col + 1)[i].0);
            }
        }
    }
}

/// The rectangles of a glyph cover exactly its lit pixels.
pub proof fn glyph_rects_cover_the_lit_pixels(glyph: Seq<u8>, from: int, col: int, row: int)
    requires
        0 <= from <= row < glyph.len() <= i32::MAX,
        0 <= col < GLYPH_COLS,
    ensures
        lit(glyph[row], col) <==> exists|i: int|
            0 <= i < rects_from(glyph, from).len() && covers(
                #[trigger] rects_from(glyph, from)[i],
                col,
                row,
            ),
    decreases glyph.len() - from,
{
    let all = rects_from(glyph, from);
    let line = runs(glyph[from], 0);
    lemma_runs(glyph[from], 0);
    if line.len() == 0 {
        assert(all == rects_from(glyph, from + 1));
        if from < row {
            glyph_rects_cover_the_lit_pixels(glyph, from + 1, col, row);
        } else {
            lemma_rects_below(glyph, from + 1);
            assert(!lit(glyph[row], col));
        }
    } else {
        let height = same_rows(glyph, from, 1);
        lemma_same_rows(glyph, from, 1);
        let head = band(line, from, height);
        let tail = rects_from(glyph, from + height);
        lemma_rects_below(glyph, from + height);
        assert(all == head + tail);
        if row < from + height {
            assert(runs(glyph[row], 0) == line);
            lemma_runs(glyph[row], 0);
            if lit(glyph[row], col) {
                let i = choose|i: int|
                    0 <= i < line.len() && (#[trigger] line[i]).0 <= col < line[i].0 + line[i].1;
                assert(all[i] == head[i]);
                assert(covers(all[i], col, row));
            }
            if exists|i: int| 0 <= i < all.len() && covers(#[trigger] all[i], col, row) {
                let i = choose|i: int| 0 <= i < all.len() && covers(#[trigger] all[i], col, row);
                if i < head.len() {
                    assert(all[i] == head[i]);
                    assert(line[i].0 <= col < line[i].0 + line[i].1);
                } else {
                    assert(all[i] == tail[i - head.len()]);
                }
            }
        } else {
            glyph_rects_cover_the_lit_pixels(glyph, from + height, col, row);
            if lit(glyph[row], col) {
                let i = choose|i: int| 0 <= i < tail.len() && covers(#[trigger] tail[i], col, row);
                assert(all[head.len() + i] == tail[i]);
            }
            if exists|i: int| 0 <= i < all.len() && covers(#[trigger] all[i], col, row) {
                let i = choose|i: int| 0 <= i < all.len() && covers(#[trigger] all[i], col, row);
                if i < head.len() {
                    assert(all[i] == head[i]);
                } else {
                    assert(all[i] == tail[i - head.len()]);
                }
            }
        }
    }
}

/// The rectangles from a row on lie at or below it, inside the glyph.
proof fn lemma_rects_below(glyph: Seq<u8>, from: int)
    requires
        0 <= from,
        glyph.len() <= i32::MAX,
    ensures
        forall|i: int|
            0 <= i < rects_from(glyph, from).len() ==> {
                let r = #[trigger] rects_from(glyph, from)[i];
                &&& from <= r.y
                &&& 0 < r.h
                &&& r.y + r.h <= glyph.len()
                &&& 0 <= r.x
                &&& 0 < r.w
                &&& r.x + r.w <= GLYPH_COLS
            },
    decreases glyph.len() - from,
{
    if from < glyph.len() {
        let line = runs(glyph[from], 0);
        lemma_runs(glyph[from], 0);
        if line.len() == 0 {
            lemma_rects_below(glyph, from + 1);
            assert(rects_from(glyph, from) == rects_from(glyph, from + 1));
        } else {
            let height = same_rows(glyph, from, 1);
            lemma_same_rows(glyph, from, 1);
            lemma_rects_below(glyph, from + height);
            let head = band(line, from, height);
            let tail = rects_from(glyph, from + height);
            let all = rects_from(glyph, from);
            assert(all == head + tail);
            assert forall|i: int| 0 <= i < all.len() implies {
                let r = #[trigger] all[i];
                &&& from <= r.y
                &&& 0 < r.h
                &&& r.y + r.h <= glyph.len()
                &&& 0 <= r.x
                &&& 0 < r.w
                &&& r.x + r.w <= GLYPH_COLS
            } by {
                if i < head.len() {
                    assert(all[i] == head[i]);
                    assert(line[i].1 > 0);
                } else {
                    assert(all[i] == tail[i - head.len()]);
                }
            }
        }
    }
}

/// No two rectangles of a glyph cover the same pixel.
pub proof fn glyph_rects_do_not_overlap(glyph: Seq<u8>, from: int, i: int, j: int)
    requires
        0 <= from,
        glyph.len() <= i32::MAX,
        0 <= i < j < rects_from(glyph, from).len(),
    ensures
        rects_from(glyph, from)[i].apart_from(rects_from(glyph, from)[j]),
    decreases glyph.len() - from,
{
    if from < glyph.len() {
        let line = runs(glyph[from], 0);
        lemma_runs(glyph[from], 0);
        if line.len() == 0 {
            glyph_rects_do_not_overlap(glyph, from + 1, i, j);
        } else {
            let height = same_rows(glyph, from, 1);
            lemma_same_rows(glyph, from, 1);
            let head = band(line, from, height);
            let tail = rects_from(glyph, from + height);
            let all = rects_from(glyph, from);
            assert(all == head + tail);
            lemma_rects_below(glyph, from + height);
            if j < head.len() {
                assert(all[i] == head[i] && all[j] == head[j]);
                assert(line[i].0 + line[i].1 <= line[j].0);
            } else {
                assert(all[j] == tail[j - head.len()]);
                if i < head.len() {
                    assert(all[i] == head[i]);
                } else {
                    assert(all[i] == tail[i - head.len()]);
                    glyph_rects_do_not_overlap(glyph, from + height, i - head.len(), j - head.len());
                }
            }
        }
    }
}

/// Glyph pixels are as large as the height allows for seven rows of them, and
/// never smaller than one.
pub proof fn pixels_are_as_large_as_the_height_allows(height: int)
    ensures
        pixel_size(height) >= 1,
        height >= GLYPH_ROWS ==> GLYPH_ROWS * pixel_size(height) <= height < GLYPH_ROWS * (
        pixel_size(height) + 1),
        height < GLYPH_ROWS ==> pixel_size(height) == 1,
{
}

/// Drawing a text and then another one from where the pen stopped is drawing
/// both at once.
pub proof fn texts_are_drawn_one_after_the_other(
    a: Seq<char>,
    b: Seq<char>,
    x: int,
    y: int,
    height: int,
    gap: int,
)
    ensures
        pen(a + b, x, height, gap) == pen(b, pen(a, x, height, gap), height, gap),
        text_rects(a + b, x, y, height, gap) == text_rects(a, x, y, height, gap) + text_rects(
            b,
            pen(a, x, height, gap),
            y,
            height,
            gap,
        ),
    decreases b.len(),
{
    if b.len() == 0 {
        assert(a + b =~= a);
        assert(text_rects(b, pen(a, x, height, gap), y, height, gap) =~= Seq::<Rect>::empty());
        assert(text_rects(a + b, x, y, height, gap) =~= text_rects(a, x, y, height, gap)
            + text_rects(b, pen(a, x, height, gap), y, height, gap));
    } else {
        let short = b.drop_last();
        texts_are_drawn_one_after_the_other(a, short, x, y, height, gap);
        assert((a + b).drop_last() =~= a + short);
        assert((a + b).last() == b.last());
        assert(text_rects(a + b, x, y, height, gap) =~= text_rects(a, x, y, height, gap)
            + text_rects(b, pen(a, x, height, gap), y, height, gap));
    }
}

/// How far a text moves the pen does not depend on where it starts.
pub proof fn pen_moves_by_the_same_amount(s: Seq<char>, x: int, z: int, height: int, gap: int)
    ensures
        pen(s, x, height, gap) - x == pen(s, z, height, gap) - z,
    decreases s.len(),
{
    if s.len() > 0 {
        pen_moves_by_the_same_amount(s.drop_last(), x, z, height, gap);
    }
}

/// A text of characters that all have a glyph is as wide as its glyphs, five
/// pixels each, with a gap between neighbours; a space is half as wide as a
/// glyph, and what has no glyph has no width of its own.
pub proof fn width_of_a_text_is_that_of_its_glyphs(s: Seq<char>, height: int, gap: int)
    requires
        gap >= 0,
        s.len() > 0,
        forall|i: int| 0 <= i < s.len() ==> glyph_table(#[trigger] s[i]) is Some,
    ensures
        text_width(s, height, gap) == s.len() * (5 * pixel_size(height)) + (s.len() - 1) * gap,
{
    lemma_glyph_pen(s, height, gap);
    let n = s.len() as int;
    let px = pixel_size(height);
    assert(n * (5 * px + gap) == n * (5 * px) + (n - 1) * gap + gap) by (nonlinear_arith);
    assert(n * (5 * px + gap) > 0) by (nonlinear_arith)
        requires
            n > 0,
            px >= 1,
            gap >= 0,
    ;
}

/// The pen moves on by a glyph and a gap for what has a glyph, by half a glyph
/// and a gap for a space, and by a gap alone for the rest.
pub proof fn characters_move_the_pen(s: Seq<char>, c: char, x: int, height: int, gap: int)
    ensures
        ({
            let step = pen(s.push(c), x, height, gap) - pen(s, x, height, gap) - gap;
            let glyph = 5 * pixel_size(height);
            &&& glyph_table(c) is Some ==> step == glyph
            &&& c == ' ' ==> 2 * step == glyph || 2 * step + 1 == glyph
            &&& glyph_table(c) is None && c != ' ' ==> step == 0
        }),
{
    assert(s.push(c).drop_last() =~= s);
}

proof fn lemma_glyph_pen(s: Seq<char>, height: int, gap: int)
    requires
        forall|i: int| 0 <= i < s.len() ==> glyph_table(#[trigger] s[i]) is Some,
    ensures
        pen(s, 0, height, gap) == s.len() * (5 * pixel_size(height) + gap),
    decreases s.len(),
{
    let px = pixel_size(height);
    if s.len() > 0 {
        let short = s.drop_last();
        assert forall|i: int| 0 <= i < short.len() implies glyph_table(#[trigger] short[i]) is Some by {
            assert(short[i] == s[i]);
        }
        lemma_glyph_pen(short, height, gap);
        assert(glyph_table(s[s.len() - 1]) is Some);
        assert((s.len() - 1) * (5 * px + gap) + (5 * px + gap) == s.len() * (5 * px + gap))
            by (nonlinear_arith);
    } else {
        assert(0 * (5 * px + gap) == 0);
    }
}

proof fn lemma_pen_grows(s: Seq<char>, x: int, height: int, gap: int)
    requires
        gap >= 0,
    ensures
        pen(s, x, height, gap) >= x,
        s.len() > 0 ==> pen(s, x, height, gap) >= x + gap,
    decreases s.len(),
{
    if s.len() > 0 {
        lemma_pen_grows(s.drop_last(), x, height, gap);
    }
}

/// The pen stops a gap behind the end of the text.
pub proof fn pen_stops_behind_the_text(s: Seq<char>, x: int, height: int, gap: int)
    requires
        gap >= 0,
    ensures
        s.len() > 0 ==> pen(s, x, height, gap) == x + text_width(s, height, gap) + gap,
        s.len() == 0 ==> text_width(s, height, gap) == 0,
        text_width(s, height, gap) >= 0,
{
    pen_moves_by_the_same_amount(s, x, 0, height, gap);
    lemma_pen_grows(s, 0, height, gap);
}

/// A rectangle of a glyph, drawn with pixels of size `px`.
proof fn lemma_placed_inside(glyph: Seq<u8>, x: int, y: int, px: int, i: int)
    requires
        glyph.len() == GLYPH_ROWS,
        px >= 1,
        i32::MIN <= x,
        x + GLYPH_COLS * px <= i32::MAX,
        i32::MIN <= y,
        y + GLYPH_ROWS * px <= i32::MAX,
        GLYPH_ROWS * px <= i32::MAX,
        0 <= i < rects_from(glyph, 0).len(),
    ensures
        ({
            let r = rects_from(glyph, 0)[i];
            let p = placed(rects_from(glyph, 0), x, y, px)[i];
            &&& p.x == x + r.x * px
            &&& p.y == y + r.y * px
            &&& p.w == r.w * px
            &&& p.h == r.h * px
            &&& x <= p.x
            &&& p.x + p.w <= x + GLYPH_COLS * px
            &&& y <= p.y
            &&& p.y + p.h <= y + GLYPH_ROWS * px
        }),
{
    lemma_rects_below(glyph, 0);
    let r = rects_from(glyph, 0)[i];
    assert(0 <= r.x * px && r.x * px + r.w * px <= GLYPH_COLS * px && 0 <= r.w * px)
        by (nonlinear_arith)
        requires
            0 <= r.x,
            0 < r.w,
            r.x + r.w <= GLYPH_COLS,
            px >= 1,
    ;
    assert(0 <= r.y * px && r.y * px + r.h * px <= GLYPH_ROWS * px && 0 <= r.h * px)
        by (nonlinear_arith)
        requires
            0 <= r.y,
            0 < r.h,
            r.y + r.h <= GLYPH_ROWS,
            px >= 1,
    ;
}

/// Nothing of a text is drawn before its start or behind its measured width,
/// nor above its top or below seven rows of pixels.
pub proof fn text_stays_in_its_box(
    s: Seq<char>,
    x: int,
    y: int,
    height: int,
    gap: int,
    i: int,
)
    requires
        can_draw(s, x, y, height, gap),
        gap >= 0,
        0 <= i < text_rects(s, x, y, height, gap).len(),
    ensures
        ({
            let r = text_rects(s, x, y, height, gap)[i];
            &&& x <= r.x
            &&& r.x + r.w <= x + text_width(s, height, gap)
            &&& y <= r.y
            &&& r.y + r.h <= y + GLYPH_ROWS * pixel_size(height)
        }),
    decreases s.len(),
{
    let px = pixel_size(height);
    if s.len() > 0 {
        let short = s.drop_last();
        let start = pen(short, x, height, gap);
        assert(s.take(s.len() - 1) =~= short);
        assert(i32::MIN <= pen(s.take(s.len() - 1), x, height, gap));
        lemma_pen_grows(short, x, height, gap);
        lemma_pen_grows(s, x, height, gap);
        pen_stops_behind_the_text(s, x, height, gap);
        pen_stops_behind_the_text(short, x, height, gap);
        let before = text_rects(short, x, y, height, gap);
        if i < before.len() {
            assert(can_draw(short, x, y, height, gap)) by {
                assert forall|k: int| 0 <= k <= short.len() implies i32::MIN <= #[trigger] pen(
                    short.take(k),
                    x,
                    height,
                    gap,
                ) && pen(short.take(k), x, height, gap) + GLYPH_COLS * px <= i32::MAX by {
                    assert(short.take(k) =~= s.take(k));
                    assert(i32::MIN <= pen(s.take(k), x, height, gap));
                }
                assert forall|k: int| 0 <= k < short.len() implies i32::MIN <= advance(
                    #[trigger] short[k],
                    height,
                ) + gap <= i32::MAX by {
                    assert(short[k] == s[k]);
                }
            }
            text_stays_in_its_box(short, x, y, height, gap, i);
            assert(text_rects(s, x, y, height, gap)[i] == before[i]);
        } else {
            let own = char_rects(s.last(), start, y, height);
            assert(text_rects(s, x, y, height, gap)[i] == own[i - before.len()]);
            let glyph = glyph_table(s.last())->0;
            lemma_placed_inside(glyph, start, y, px, i - before.len());
        }
    }
}

/// A drawn character shows its glyph: every glyph pixel becomes a square of
/// pixels at its place, which is covered if and only if it is lit.
pub proof fn drawn_character_shows_its_glyph(
    c: char,
    x: int,
    y: int,
    height: int,
    col: int,
    row: int,
    dx: int,
    dy: int,
)
    requires
        glyph_table(c) is Some,
        0 <= col < GLYPH_COLS,
        0 <= row < GLYPH_ROWS,
        0 <= dx < pixel_size(height),
        0 <= dy < pixel_size(height),
        i32::MIN <= x,
        x + GLYPH_COLS * pixel_size(height) <= i32::MAX,
        i32::MIN <= y,
        y + GLYPH_ROWS * pixel_size(height) <= i32::MAX,
        GLYPH_ROWS * pixel_size(height) <= i32::MAX,
    ensures
        ({
            let px = pixel_size(height);
            let rects = char_rects(c, x, y, height);
            lit(glyph_table(c)->0[row], col) <==> exists|i: int|
                0 <= i < rects.len() && covers(
                    #[trigger] rects[i],
                    x + col * px + dx,
                    y + row * px + dy,
                )
        }),
{
    let px = pixel_size(height);
    let glyph = glyph_table(c)->0;
    let parts = rects_from(glyph, 0);
    let rects = char_rects(c, x, y, height);
    glyph_rects_cover_the_lit_pixels(glyph, 0, col, row);
    assert forall|i: int| 0 <= i < parts.len() implies (covers(#[trigger] parts[i], col, row)
        <==> covers(rects[i], x + col * px + dx, y + row * px + dy)) by {
        lemma_placed_inside(glyph, x, y, px, i);
        let r = parts[i];
        lemma_square(r.x as int, r.w as int, col, px, dx);
        lemma_square(r.y as int, r.h as int, row, px, dy);
    }
    if lit(glyph[row], col) {
        let i = choose|i: int| 0 <= i < parts.len() && covers(#[trigger] parts[i], col, row);
        assert(covers(rects[i], x + col * px + dx, y + row * px + dy));
    }
    if exists|i: int|
        0 <= i < rects.len() && covers(
            #[trigger] rects[i],
            x + col * px + dx,
            y + row * px + dy,
        ) {
        let i = choose|i: int|
            0 <= i < rects.len() && covers(
                #[trigger] rects[i],
                x + col * px + dx,
                y + row * px + dy,
            );
        assert(covers(parts[i], col, row));
    }
}

proof fn lemma_square(start: int, length: int, at: int, px: int, d: int)
    requires
        px >= 1,
        0 <= d < px,
    ensures
        start <= at < start + length <==> start * px <= at * px + d < start * px + length * px,
{
    assert(start <= at ==> start * px <= at * px) by (nonlinear_arith)
        requires
            px >= 1,
    ;
    assert(start > at ==> start * px >= at * px + px) by (nonlinear_arith)
        requires
            px >= 1,
    ;
    assert(at < start + length ==> at * px + px <= start * px + length * px) by (nonlinear_arith)
        requires
            px >= 1,
    ;
    assert(at >= start + length ==> at * px >= start * px + length * px) by (nonlinear_arith)
        requires
            px >= 1,
    ;
}

/// The columns of a row are its bits, from the highest of five to the lowest: a
/// row is the sum of what its lit pixels stand for, each half of the one to its
/// left.
pub proof fn rows_are_the_sum_of_their_lit_pixels(bits: u8)
    requires
        bits < 32,
    ensures
        bits == (if lit(bits, 0) {
            16int
        } else {
            0
        }) + (if lit(bits, 1) {
            8int
        } else {
            0
        }) + (if lit(bits, 2) {
            4int
        } else {
            0
        }) + (if lit(bits, 3) {
            2int
        } else {
            0
        }) + (if lit(bits, 4) {
            1int
        } else {
            0
        }),
        forall|col: int| col < 0 || col >= GLYPH_COLS ==> !#[trigger] lit(bits, col),
        forall|col: int| 0 <= col < 4 ==> #[trigger] weight(col) == 2 * weight(col + 1),
{
}

} // verus!
