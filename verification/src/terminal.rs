//! A model of the terminal, and what painting does to it.
//!
//! The model is a field of cells and a cursor. Replaying the instructions of
//! a paint against it shows that the terminal ends up with the new frame,
//! and how many cells were altered on the way.

use vstd::prelude::*;
use crate::donut::FULL;
use crate::glyph::{glyph_index, glyphs, lemma_glyph_index_on_ramp, within_ceiling};
use crate::grid::{is_grid, uniform, with_cell};
use crate::paint::{
    PaintOp, cell_ops, decimal, digit, encode, encode_op, frame_ops, full_ops, full_row_ops,
    full_rows_ops, row_ops, rows_ops, run_before, same_shape, skippable,
};

verus! {

/// A terminal: what each cell shows, and where the cursor stands. The cursor
/// may stand outside the field; a glyph written there is lost.
pub ghost struct Terminal<G> {
    pub cells: Seq<Seq<G>>,
    pub row: int,
    pub col: int,
}

/// The cursor stands on a cell.
pub open spec fn on_screen<G>(t: Terminal<G>) -> bool {
    0 <= t.row < t.cells.len() && 0 <= t.col < t.cells[t.row].len()
}

/// The terminal after one instruction.
pub open spec fn step<G>(t: Terminal<G>, op: PaintOp<G>) -> Terminal<G> {
    match op {
        PaintOp::Home => Terminal { cells: t.cells, row: 0, col: 0 },
        PaintOp::Forward(n) => Terminal { cells: t.cells, row: t.row, col: t.col + n },
        PaintOp::Put(g) => Terminal {
            cells: if on_screen(t) {
                with_cell(t.cells, t.row, t.col, g)
            } else {
                t.cells
            },
            row: t.row,
            col: t.col + 1,
        },
        PaintOp::NewLine => Terminal { cells: t.cells, row: t.row + 1, col: 0 },
    }
}

/// The terminal after a sequence of instructions.
pub open spec fn replay<G>(t: Terminal<G>, ops: Seq<PaintOp<G>>) -> Terminal<G>
    decreases ops.len(),
{
    if ops.len() == 0 {
        t
    } else {
        step(replay(t, ops.drop_last()), ops.last())
    }
}

/// The instruction alters what the terminal shows: it writes, onto a cell,
/// a glyph other than the one the cell holds.
pub open spec fn alters<G>(t: Terminal<G>, op: PaintOp<G>) -> bool {
    match op {
        PaintOp::Put(g) => on_screen(t) && t.cells[t.row][t.col] != g,
        _ => false,
    }
}

/// The number of instructions in a sequence that alter what the terminal
/// shows at the moment they are carried out.
pub open spec fn alterations<G>(t: Terminal<G>, ops: Seq<PaintOp<G>>) -> nat
    decreases ops.len(),
{
    if ops.len() == 0 {
        0
    } else {
        alterations(t, ops.drop_last()) + if alters(replay(t, ops.drop_last()), ops.last()) {
            1nat
        } else {
            0nat
        }
    }
}

/// The number of cells among the first `k` of a row in which two frames
/// differ.
pub open spec fn row_differences<G>(next: Seq<G>, shown: Seq<G>, k: int) -> nat
    decreases k,
{
    if k <= 0 {
        0
    } else {
        row_differences(next, shown, k - 1) + if next[k - 1] != shown[k - 1] {
            1nat
        } else {
            0nat
        }
    }
}

/// The number of cells in the first `i` rows in which two frames differ.
pub open spec fn differences<G>(next: Seq<Seq<G>>, shown: Seq<Seq<G>>, i: int) -> nat
    decreases i,
{
    if i <= 0 {
        0
    } else {
        differences(next, shown, i - 1) + row_differences(
            next[i - 1],
            shown[i - 1],
            next[i - 1].len() as int,
        )
    }
}

/// A row while it is being painted: the new glyphs up to column `k`, the
/// old ones from there on.
pub open spec fn row_mix<G>(next: Seq<G>, shown: Seq<G>, k: int) -> Seq<G> {
    Seq::new(next.len(), |c: int| if c < k { next[c] } else { shown[c] })
}

/// A frame while it is being painted: the new rows above row `i`, the old
/// ones from there on.
pub open spec fn frame_mix<G>(next: Seq<Seq<G>>, shown: Seq<Seq<G>>, i: int) -> Seq<Seq<G>> {
    Seq::new(next.len(), |r: int| if r < i { next[r] } else { shown[r] })
}

/// Replaying two sequences one after the other is replaying their
/// concatenation, and the alterations add up.
pub proof fn lemma_replay_concat<G>(t: Terminal<G>, a: Seq<PaintOp<G>>, b: Seq<PaintOp<G>>)
    ensures
        replay(t, a + b) == replay(replay(t, a), b),
        alterations(t, a + b) == alterations(t, a) + alterations(replay(t, a), b),
    decreases b.len(),
{
    if b.len() == 0 {
        assert(a + b =~= a);
    } else {
        assert((a + b).drop_last() =~= a + b.drop_last());
        assert((a + b).last() == b.last());
        lemma_replay_concat(t, a, b.drop_last());
    }
}

/// Replaying one instruction is one step.
pub proof fn lemma_replay_one<G>(t: Terminal<G>, op: PaintOp<G>)
    ensures
        replay(t, seq![op]) == step(t, op),
        alterations(t, seq![op]) == (if alters(t, op) {
            1nat
        } else {
            0nat
        }),
{
    assert(seq![op].drop_last() =~= Seq::<PaintOp<G>>::empty());
    assert(seq![op].last() == op);
    assert(replay(t, seq![op].drop_last()) == t);
    assert(alterations(t, seq![op].drop_last()) == 0);
}

/// The run of skipped cells before a column is no longer than the row up to
/// that column.
pub proof fn lemma_run_bound<G>(next: Seq<G>, shown: Seq<G>, background: G, k: int)
    requires
        0 <= k,
    ensures
        run_before(next, shown, background, k) <= k,
    decreases k,
{
    if k > 0 {
        lemma_run_bound(next, shown, background, k - 1);
    }
}

/// Painting the first `k` cells of a row. On a terminal that shows `shown`
/// in row `t.row`, with the cursor at the start of that row, the row
/// afterwards shows the new glyphs in those cells and nothing else has
/// changed; the cursor stands behind the last cell written, short of column
/// `k` by the run of skipped cells before it; and as many cells were
/// altered as differ between the two rows.
pub proof fn lemma_paint_row<G>(
    t: Terminal<G>,
    next: Seq<G>,
    shown: Seq<G>,
    background: G,
    k: int,
)
    requires
        0 <= t.row < t.cells.len(),
        t.col == 0,
        t.cells[t.row] == shown,
        next.len() == shown.len(),
        0 <= k <= next.len(),
    ensures
        replay(t, row_ops(next, shown, background, k)).cells == t.cells.update(
            t.row,
            row_mix(next, shown, k),
        ),
        replay(t, row_ops(next, shown, background, k)).row == t.row,
        replay(t, row_ops(next, shown, background, k)).col == k - run_before(
            next,
            shown,
            background,
            k,
        ),
        alterations(t, row_ops(next, shown, background, k)) == row_differences(next, shown, k),
    decreases k,
{
    if k == 0 {
        assert(row_mix(next, shown, 0) =~= shown);
        assert(t.cells.update(t.row, shown) =~= t.cells);
    } else {
        let before = row_ops(next, shown, background, k - 1);
        let run = run_before(next, shown, background, k - 1);
        let cell = cell_ops(next[k - 1], shown[k - 1], background, run);
        let mid = replay(t, before);
        lemma_paint_row(t, next, shown, background, k - 1);
        lemma_run_bound(next, shown, background, k - 1);
        lemma_replay_concat(t, before, cell);
        if skippable(next[k - 1], shown[k - 1], background) {
            assert(before + cell =~= before);
            assert(row_mix(next, shown, k) =~= row_mix(next, shown, k - 1));
        } else {
            let put = PaintOp::Put(next[k - 1]);
            let at = if run > 0 {
                step(mid, PaintOp::Forward(run))
            } else {
                mid
            };
            if run > 0 {
                let forward = PaintOp::Forward(run);
                assert(cell =~= seq![forward] + seq![put]);
                lemma_replay_concat(mid, seq![forward], seq![put]);
                lemma_replay_one(mid, forward);
            }
            lemma_replay_one(at, put);
            assert(at.col == k - 1 && at.row == t.row && at.cells == mid.cells);
            assert(on_screen(at));
            assert(at.cells[at.row] == row_mix(next, shown, k - 1));
            assert(with_cell(at.cells, at.row, at.col, next[k - 1]) =~= t.cells.update(
                t.row,
                row_mix(next, shown, k),
            )) by {
                assert(row_mix(next, shown, k - 1).update(k - 1, next[k - 1]) =~= row_mix(
                    next,
                    shown,
                    k,
                ));
            }
            assert(at.cells[at.row][at.col] == shown[k - 1]);
        }
    }
}

/// Painting the first `i` rows of a frame. On a terminal that shows
/// `shown`, those rows afterwards show the new frame and the rows below are
/// untouched; the cursor stands at the start of row `i`; and as many cells
/// were altered as differ between the two frames in those rows.
pub proof fn lemma_paint_rows<G>(
    t: Terminal<G>,
    next: Seq<Seq<G>>,
    shown: Seq<Seq<G>>,
    background: G,
    i: int,
)
    requires
        t.cells == shown,
        same_shape(next, shown),
        0 <= i <= next.len(),
    ensures
        replay(t, rows_ops(next, shown, background, i)).cells == frame_mix(next, shown, i),
        replay(t, rows_ops(next, shown, background, i)).row == i,
        replay(t, rows_ops(next, shown, background, i)).col == 0,
        alterations(t, rows_ops(next, shown, background, i)) == differences(next, shown, i),
    decreases i,
{
    if i == 0 {
        lemma_replay_one(t, PaintOp::<G>::Home);
        assert(frame_mix(next, shown, 0) =~= shown);
    } else {
        let above = rows_ops(next, shown, background, i - 1);
        let width = next[i - 1].len() as int;
        let row = row_ops(next[i - 1], shown[i - 1], background, width);
        let start = replay(t, above);
        lemma_paint_rows(t, next, shown, background, i - 1);
        lemma_paint_row(start, next[i - 1], shown[i - 1], background, width);
        let end = replay(start, row);
        assert(row.push(PaintOp::NewLine) =~= row + seq![PaintOp::NewLine]);
        lemma_replay_concat(start, row, seq![PaintOp::NewLine]);
        lemma_replay_one(end, PaintOp::<G>::NewLine);
        lemma_replay_concat(t, above, row.push(PaintOp::NewLine));
        assert(row_mix(next[i - 1], shown[i - 1], width) =~= next[i - 1]);
        assert(frame_mix(next, shown, i - 1).update(i - 1, next[i - 1]) =~= frame_mix(
            next,
            shown,
            i,
        ));
    }
}

/// Painting is correct: replayed on a terminal that shows the old frame,
/// wherever its cursor stands, the instructions of a paint leave the
/// terminal showing the new frame, and they alter exactly as many cells as
/// differ between the two frames.
pub proof fn lemma_paint_shows_frame<G>(
    t: Terminal<G>,
    next: Seq<Seq<G>>,
    shown: Seq<Seq<G>>,
    background: G,
)
    requires
        t.cells == shown,
        same_shape(next, shown),
    ensures
        replay(t, frame_ops(next, shown, background)).cells == next,
        alterations(t, frame_ops(next, shown, background)) == differences(
            next,
            shown,
            next.len() as int,
        ),
{
    lemma_paint_rows(t, next, shown, background, next.len() as int);
    assert(frame_mix(next, shown, next.len() as int) =~= next);
}

/// Writing the first `k` cells of a row in full.
pub proof fn lemma_full_row<G>(t: Terminal<G>, next: Seq<G>, k: int)
    requires
        0 <= t.row < t.cells.len(),
        t.col == 0,
        t.cells[t.row].len() == next.len(),
        0 <= k <= next.len(),
    ensures
        replay(t, full_row_ops(next, k)).cells == t.cells.update(
            t.row,
            row_mix(next, t.cells[t.row], k),
        ),
        replay(t, full_row_ops(next, k)).row == t.row,
        replay(t, full_row_ops(next, k)).col == k,
    decreases k,
{
    let shown = t.cells[t.row];
    if k == 0 {
        assert(row_mix(next, shown, 0) =~= shown);
        assert(t.cells.update(t.row, shown) =~= t.cells);
    } else {
        lemma_full_row(t, next, k - 1);
        assert(full_row_ops(next, k).drop_last() =~= full_row_ops(next, k - 1));
        let at = replay(t, full_row_ops(next, k - 1));
        assert(with_cell(at.cells, at.row, at.col, next[k - 1]) =~= t.cells.update(
            t.row,
            row_mix(next, shown, k),
        )) by {
            assert(row_mix(next, shown, k - 1).update(k - 1, next[k - 1]) =~= row_mix(
                next,
                shown,
                k,
            ));
        }
    }
}

/// Writing the first `i` rows of a frame in full.
pub proof fn lemma_full_rows<G>(t: Terminal<G>, next: Seq<Seq<G>>, i: int)
    requires
        same_shape(next, t.cells),
        0 <= i <= next.len(),
    ensures
        replay(t, full_rows_ops(next, i)).cells == frame_mix(next, t.cells, i),
        replay(t, full_rows_ops(next, i)).row == i,
        replay(t, full_rows_ops(next, i)).col == 0,
    decreases i,
{
    if i == 0 {
        lemma_replay_one(t, PaintOp::<G>::Home);
        assert(frame_mix(next, t.cells, 0) =~= t.cells);
    } else {
        let above = full_rows_ops(next, i - 1);
        let width = next[i - 1].len() as int;
        let row = full_row_ops(next[i - 1], width);
        let start = replay(t, above);
        lemma_full_rows(t, next, i - 1);
        lemma_full_row(start, next[i - 1], width);
        let end = replay(start, row);
        assert(row.push(PaintOp::NewLine) =~= row + seq![PaintOp::NewLine]);
        lemma_replay_concat(start, row, seq![PaintOp::NewLine]);
        lemma_replay_one(end, PaintOp::<G>::NewLine);
        lemma_replay_concat(t, above, row.push(PaintOp::NewLine));
        assert(row_mix(next[i - 1], t.cells[i - 1], width) =~= next[i - 1]);
        assert(frame_mix(next, t.cells, i - 1).update(i - 1, next[i - 1]) =~= frame_mix(
            next,
            t.cells,
            i,
        ));
    }
}

/// Writing a frame in full is correct whatever the terminal shows: on a
/// terminal with the frame's rows and columns, the instructions leave the
/// terminal showing the frame.
pub proof fn lemma_full_paint_shows_frame<G>(t: Terminal<G>, next: Seq<Seq<G>>)
    requires
        same_shape(next, t.cells),
    ensures
        replay(t, full_ops(next)).cells == next,
{
    lemma_full_rows(t, next, next.len() as int);
    assert(frame_mix(next, t.cells, next.len() as int) =~= next);
}

/// A frame does not differ from itself.
pub proof fn lemma_no_differences<G>(frame: Seq<Seq<G>>, i: int)
    ensures
        differences(frame, frame, i) == 0,
    decreases i,
{
    if i > 0 {
        lemma_no_differences(frame, i - 1);
        lemma_no_row_differences(frame[i - 1], frame[i - 1].len() as int);
    }
}

/// A row does not differ from itself.
pub proof fn lemma_no_row_differences<G>(row: Seq<G>, k: int)
    ensures
        row_differences(row, row, k) == 0,
    decreases k,
{
    if k > 0 {
        lemma_no_row_differences(row, k - 1);
    }
}

/// Painting the same frame a second time alters no cell: the terminal that
/// shows the frame after the first paint shows it after the second, and
/// none of the second paint's instructions changes what a cell holds.
pub proof fn lemma_repaint_alters_nothing<G>(t: Terminal<G>, frame: Seq<Seq<G>>, background: G)
    requires
        t.cells == frame,
    ensures
        replay(t, frame_ops(frame, frame, background)).cells == frame,
        alterations(t, frame_ops(frame, frame, background)) == 0,
{
    lemma_paint_shows_frame(t, frame, frame, background);
    lemma_no_differences(frame, frame.len() as int);
}

/// A single glyph on an empty screen: when the terminal shows the
/// background everywhere and the new frame holds one other glyph, at row
/// `r` and column `c`, the paint leaves that glyph there and the background
/// in every other cell.
pub proof fn lemma_single_glyph<G>(
    t: Terminal<G>,
    rows: int,
    cols: int,
    background: G,
    r: int,
    c: int,
    glyph: G,
)
    requires
        0 <= r < rows,
        0 <= c < cols,
        glyph != background,
        t.cells == uniform(rows, cols, background),
    ensures
        ({
            let next = with_cell(uniform(rows, cols, background), r, c, glyph);
            let after = replay(t, frame_ops(next, t.cells, background)).cells;
            &&& is_grid(after, rows, cols)
            &&& after[r][c] == glyph
            &&& forall|i: int, j: int|
                0 <= i < rows && 0 <= j < cols && (i != r || j != c) ==> after[i][j] == background
        }),
{
    let blank = uniform(rows, cols, background);
    let next = with_cell(blank, r, c, glyph);
    crate::grid::lemma_with_cell_shape(blank, rows, cols, r, c, glyph);
    lemma_paint_shows_frame(t, next, blank, background);
}

/// Where a terminal stands in reading its input.
pub ghost enum Reading {
    /// Between sequences: the next character is a glyph or starts a
    /// sequence.
    Text,
    /// After the escape character.
    Escape,
    /// Inside a control sequence, with the number read so far.
    Control(nat),
}

/// A terminal that is fed characters.
pub ghost struct Reader {
    pub terminal: Terminal<char>,
    pub reading: Reading,
}

/// A character that a terminal shows in a cell: neither a control character
/// nor the delete character.
pub open spec fn printable(c: char) -> bool {
    c as u32 >= 0x20 && c as u32 != 0x7f
}

/// One of the ten digits.
pub open spec fn is_digit(c: char) -> bool {
    '0' as u32 <= c as u32 <= '9' as u32
}

/// The terminal after one more character.
///
/// A printable character is written at the cursor. The line terminator
/// moves the cursor to the start of the next row; the other control
/// characters are ignored, but for the escape character, which starts a
/// sequence. In a control sequence the digits give a number; `H` homes the
/// cursor and `C` moves it right by the number, by one column where the
/// number is zero.
pub open spec fn read_char(r: Reader, c: char) -> Reader {
    match r.reading {
        Reading::Text => if c == '\x1b' {
            Reader { terminal: r.terminal, reading: Reading::Escape }
        } else if c == '\n' {
            Reader { terminal: step(r.terminal, PaintOp::NewLine), reading: Reading::Text }
        } else if printable(c) {
            Reader { terminal: step(r.terminal, PaintOp::Put(c)), reading: Reading::Text }
        } else {
            r
        },
        Reading::Escape => if c == '[' {
            Reader { terminal: r.terminal, reading: Reading::Control(0) }
        } else {
            Reader { terminal: r.terminal, reading: Reading::Text }
        },
        Reading::Control(n) => if is_digit(c) {
            Reader {
                terminal: r.terminal,
                reading: Reading::Control((10 * n + (c as u32 - '0' as u32)) as nat),
            }
        } else if c == 'H' {
            Reader { terminal: step(r.terminal, PaintOp::Home), reading: Reading::Text }
        } else if c == 'C' {
            Reader {
                terminal: step(
                    r.terminal,
                    PaintOp::Forward(
                        if n == 0 {
                            1
                        } else {
                            n
                        },
                    ),
                ),
                reading: Reading::Text,
            }
        } else {
            Reader { terminal: r.terminal, reading: Reading::Text }
        },
    }
}

/// The terminal after a text.
pub open spec fn read(r: Reader, text: Seq<char>) -> Reader
    decreases text.len(),
{
    if text.len() == 0 {
        r
    } else {
        read_char(read(r, text.drop_last()), text.last())
    }
}

/// An instruction that survives being written as text: a glyph is
/// printable, and a movement moves.
pub open spec fn writable(op: PaintOp<char>) -> bool {
    match op {
        PaintOp::Put(g) => printable(g),
        PaintOp::Forward(n) => n > 0,
        _ => true,
    }
}

/// Reading two texts one after the other is reading their concatenation.
pub proof fn lemma_read_concat(r: Reader, a: Seq<char>, b: Seq<char>)
    ensures
        read(r, a + b) == read(read(r, a), b),
    decreases b.len(),
{
    if b.len() == 0 {
        assert(a + b =~= a);
    } else {
        assert((a + b).drop_last() =~= a + b.drop_last());
        assert((a + b).last() == b.last());
        lemma_read_concat(r, a, b.drop_last());
    }
}

/// Reading a number in decimal, at the start of a control sequence, gives
/// the number.
pub proof fn lemma_read_decimal(t: Terminal<char>, n: nat)
    ensures
        read(Reader { terminal: t, reading: Reading::Control(0) }, decimal(n)) == (Reader {
            terminal: t,
            reading: Reading::Control(n),
        }),
    decreases n,
{
    let start = Reader { terminal: t, reading: Reading::Control(0) };
    let last = digit(n as int % 10);
    assert(is_digit(last) && last as u32 - '0' as u32 == n % 10);
    if n < 10 {
        assert(decimal(n).drop_last() =~= Seq::<char>::empty());
        assert(read(start, decimal(n).drop_last()) == start);
    } else {
        assert(decimal(n).drop_last() =~= decimal(n / 10));
        lemma_read_decimal(t, n / 10);
    }
}

/// Reading the text of one instruction carries the instruction out.
pub proof fn lemma_read_op(t: Terminal<char>, op: PaintOp<char>)
    requires
        writable(op),
    ensures
        read(Reader { terminal: t, reading: Reading::Text }, encode_op(op)) == (Reader {
            terminal: step(t, op),
            reading: Reading::Text,
        }),
{
    let start = Reader { terminal: t, reading: Reading::Text };
    let escape = Reader { terminal: t, reading: Reading::Escape };
    let control = Reader { terminal: t, reading: Reading::Control(0) };
    let intro = seq!['\x1b', '['];
    assert(read(start, intro) == control) by {
        assert(intro.drop_last() =~= seq!['\x1b']);
        assert(seq!['\x1b'].drop_last() =~= Seq::<char>::empty());
        assert(read(start, seq!['\x1b'].drop_last()) == start);
        assert(read(start, seq!['\x1b']) == escape);
    }
    match op {
        PaintOp::Home => {
            let text = encode_op(op);
            assert(text.drop_last() =~= intro);
        },
        PaintOp::Forward(n) => {
            let text = encode_op(op);
            assert(text.drop_last() =~= intro + decimal(n));
            lemma_read_concat(start, intro, decimal(n));
            lemma_read_decimal(t, n);
        },
        PaintOp::Put(g) => {
            assert(seq![g].drop_last() =~= Seq::<char>::empty());
            assert(read(start, seq![g].drop_last()) == start);
        },
        PaintOp::NewLine => {
            assert(seq!['\n'].drop_last() =~= Seq::<char>::empty());
            assert(read(start, seq!['\n'].drop_last()) == start);
        },
    }
}

/// Reading the text of a sequence of instructions carries them out, one
/// after the other.
pub proof fn lemma_read_encoded(t: Terminal<char>, ops: Seq<PaintOp<char>>)
    requires
        forall|k: int| 0 <= k < ops.len() ==> writable(#[trigger] ops[k]),
    ensures
        read(Reader { terminal: t, reading: Reading::Text }, encode(ops)) == (Reader {
            terminal: replay(t, ops),
            reading: Reading::Text,
        }),
    decreases ops.len(),
{
    if ops.len() > 0 {
        let start = Reader { terminal: t, reading: Reading::Text };
        lemma_read_encoded(t, ops.drop_last());
        lemma_read_concat(start, encode(ops.drop_last()), encode_op(ops.last()));
        lemma_read_op(replay(t, ops.drop_last()), ops.last());
    }
}

/// Every glyph of the frame is printable.
pub open spec fn all_printable(frame: Seq<Seq<char>>) -> bool {
    forall|i: int, j: int|
        0 <= i < frame.len() && 0 <= j < frame[i].len() ==> printable(#[trigger] frame[i][j])
}

/// The instructions for a row of printable glyphs are writable.
pub proof fn lemma_row_ops_writable(next: Seq<char>, shown: Seq<char>, background: char, k: int)
    requires
        0 <= k <= next.len(),
        forall|j: int| 0 <= j < next.len() ==> printable(#[trigger] next[j]),
    ensures
        forall|a: int|
            0 <= a < row_ops(next, shown, background, k).len() ==> writable(
                #[trigger] row_ops(next, shown, background, k)[a],
            ),
    decreases k,
{
    if k > 0 {
        lemma_row_ops_writable(next, shown, background, k - 1);
        let before = row_ops(next, shown, background, k - 1);
        let cell = cell_ops(
            next[k - 1],
            shown[k - 1],
            background,
            run_before(next, shown, background, k - 1),
        );
        assert(printable(next[k - 1]));
        assert forall|a: int| 0 <= a < (before + cell).len() implies writable(
            #[trigger] (before + cell)[a],
        ) by {
            if a >= before.len() {
                assert((before + cell)[a] == cell[a - before.len()]);
            }
        }
    }
}

/// The instructions for a frame of printable glyphs are writable.
pub proof fn lemma_rows_ops_writable(
    next: Seq<Seq<char>>,
    shown: Seq<Seq<char>>,
    background: char,
    i: int,
)
    requires
        0 <= i <= next.len(),
        all_printable(next),
    ensures
        forall|a: int|
            0 <= a < rows_ops(next, shown, background, i).len() ==> writable(
                #[trigger] rows_ops(next, shown, background, i)[a],
            ),
    decreases i,
{
    if i > 0 {
        lemma_rows_ops_writable(next, shown, background, i - 1);
        assert forall|j: int| 0 <= j < next[i - 1].len() implies printable(
            #[trigger] next[i - 1][j],
        ) by {}
        lemma_row_ops_writable(next[i - 1], shown[i - 1], background, next[i - 1].len() as int);
        let above = rows_ops(next, shown, background, i - 1);
        let row = row_ops(next[i - 1], shown[i - 1], background, next[i - 1].len() as int).push(
            PaintOp::NewLine,
        );
        assert forall|a: int| 0 <= a < (above + row).len() implies writable(
            #[trigger] (above + row)[a],
        ) by {
            if a >= above.len() {
                assert((above + row)[a] == row[a - above.len()]);
            }
        }
    }
}

/// The text of a paint is understood by the terminal: fed, character by
/// character, to a terminal that shows the old frame and is not in the
/// middle of a sequence, it leaves the terminal showing the new frame, as
/// long as every glyph of the new frame is printable.
pub proof fn lemma_painted_text_shows_frame(
    t: Terminal<char>,
    next: Seq<Seq<char>>,
    shown: Seq<Seq<char>>,
    background: char,
)
    requires
        t.cells == shown,
        same_shape(next, shown),
        all_printable(next),
    ensures
        read(
            Reader { terminal: t, reading: Reading::Text },
            encode(frame_ops(next, shown, background)),
        ).terminal.cells == next,
        read(
            Reader { terminal: t, reading: Reading::Text },
            encode(frame_ops(next, shown, background)),
        ).reading == Reading::Text,
{
    lemma_rows_ops_writable(next, shown, background, next.len() as int);
    lemma_read_encoded(t, frame_ops(next, shown, background));
    lemma_paint_shows_frame(t, next, shown, background);
}

/// The text of a full paint is understood by the terminal: fed to a
/// terminal with the frame's rows and columns that is not in the middle of
/// a sequence, it leaves the terminal showing the frame, as long as every
/// glyph of the frame is printable.
pub proof fn lemma_full_text_shows_frame(t: Terminal<char>, next: Seq<Seq<char>>)
    requires
        same_shape(next, t.cells),
        all_printable(next),
    ensures
        read(Reader { terminal: t, reading: Reading::Text }, encode(full_ops(next))).terminal.cells
            == next,
        read(Reader { terminal: t, reading: Reading::Text }, encode(full_ops(next))).reading
            == Reading::Text,
{
    lemma_full_rows_writable(next, next.len() as int);
    lemma_read_encoded(t, full_ops(next));
    lemma_full_paint_shows_frame(t, next);
}

/// The instructions of a full paint of printable glyphs are writable.
pub proof fn lemma_full_rows_writable(next: Seq<Seq<char>>, i: int)
    requires
        0 <= i <= next.len(),
        all_printable(next),
    ensures
        forall|a: int|
            0 <= a < full_rows_ops(next, i).len() ==> writable(#[trigger] full_rows_ops(next, i)[a]),
    decreases i,
{
    if i > 0 {
        lemma_full_rows_writable(next, i - 1);
        let above = full_rows_ops(next, i - 1);
        let row = full_row_ops(next[i - 1], next[i - 1].len() as int).push(PaintOp::NewLine);
        assert forall|a: int| 0 <= a < (above + row).len() implies writable(
            #[trigger] (above + row)[a],
        ) by {
            if a >= above.len() {
                let b = a - above.len();
                assert((above + row)[a] == row[b]);
                if b < next[i - 1].len() {
                    assert(printable(next[i - 1][b]));
                }
            }
        }
    }
}

/// Glyphs taken from a ramp of printable glyphs are printable.
pub proof fn lemma_glyphs_printable(field: Seq<Seq<u8>>, ramp: Seq<char>)
    requires
        ramp.len() > 0,
        within_ceiling(field),
        forall|k: int| 0 <= k < ramp.len() ==> printable(#[trigger] ramp[k]),
    ensures
        all_printable(glyphs(field, ramp)),
{
    assert forall|i: int, j: int|
        0 <= i < glyphs(field, ramp).len() && 0 <= j < glyphs(field, ramp)[i].len() implies printable(
        #[trigger] glyphs(field, ramp)[i][j],
    ) by {
        assert(field[i][j] <= FULL);
        lemma_glyph_index_on_ramp(field[i][j], ramp.len());
        assert(printable(ramp[glyph_index(field[i][j], ramp.len())]));
    }
}

/// A single glyph on an empty screen, as text: when the terminal shows the
/// background everywhere and the new frame holds one other glyph, at row
/// `r` and column `c`, feeding the text of the paint to the terminal leaves
/// that glyph there and the background in every other cell.
pub proof fn lemma_single_glyph_text(
    t: Terminal<char>,
    rows: int,
    cols: int,
    background: char,
    r: int,
    c: int,
    glyph: char,
)
    requires
        0 <= r < rows,
        0 <= c < cols,
        glyph != background,
        printable(glyph),
        printable(background),
        t.cells == uniform(rows, cols, background),
    ensures
        ({
            let next = with_cell(uniform(rows, cols, background), r, c, glyph);
            let text = encode(frame_ops(next, t.cells, background));
            let after = read(Reader { terminal: t, reading: Reading::Text }, text).terminal.cells;
            &&& is_grid(after, rows, cols)
            &&& after[r][c] == glyph
            &&& forall|i: int, j: int|
                0 <= i < rows && 0 <= j < cols && (i != r || j != c) ==> after[i][j] == background
        }),
{
    let blank = uniform(rows, cols, background);
    let next = with_cell(blank, r, c, glyph);
    crate::grid::lemma_with_cell_shape(blank, rows, cols, r, c, glyph);
    assert(all_printable(next)) by {
        assert forall|i: int, j: int|
            0 <= i < next.len() && 0 <= j < next[i].len() implies printable(
            #[trigger] next[i][j],
        ) by {
            if i != r || j != c {
                assert(next[i][j] == blank[i][j]);
            }
        }
    }
    lemma_painted_text_shows_frame(t, next, blank, background);
}

} // verus!
