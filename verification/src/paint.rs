//! Differential painting: the text that turns the frame on the screen into
//! the next one.
//!
//! A cell is skipped when it shows the background and is to show the
//! background. Runs of skipped cells become one cursor movement, or nothing
//! at the end of a row; every other cell is written out.

use vstd::prelude::*;
use vstd::string::StringExecFns;
use crate::grid::grid;

verus! {

/// One instruction to a terminal whose cells hold glyphs of type `G`.
pub ghost enum PaintOp<G> {
    /// Move the cursor to the first column of the first row.
    Home,
    /// Move the cursor right by so many columns.
    Forward(nat),
    /// Write a glyph at the cursor and move one column right.
    Put(G),
    /// Move the cursor to the first column of the next row.
    NewLine,
}

/// The character of a decimal digit.
pub open spec fn digit(d: int) -> char {
    (d + 48) as u8 as char
}

/// A number in decimal, without leading zeros.
pub open spec fn decimal(n: nat) -> Seq<char>
    decreases n,
{
    if n < 10 {
        seq![digit(n as int)]
    } else {
        decimal(n / 10).push(digit(n as int % 10))
    }
}

/// The characters of one instruction.
pub open spec fn encode_op(op: PaintOp<char>) -> Seq<char> {
    match op {
        PaintOp::Home => seq!['\x1b', '[', 'H'],
        PaintOp::Forward(n) => seq!['\x1b', '['] + decimal(n) + seq!['C'],
        PaintOp::Put(c) => seq![c],
        PaintOp::NewLine => seq!['\n'],
    }
}

/// The characters of a sequence of instructions.
pub open spec fn encode(ops: Seq<PaintOp<char>>) -> Seq<char>
    decreases ops.len(),
{
    if ops.len() == 0 {
        Seq::empty()
    } else {
        encode(ops.drop_last()) + encode_op(ops.last())
    }
}

/// Nothing to draw and nothing to erase: the cell shows the background and
/// is to show the background.
pub open spec fn skippable<G>(next: G, shown: G, background: G) -> bool {
    next == background && shown == background
}

/// The number of skippable cells that end just before column `k`.
pub open spec fn run_before<G>(next: Seq<G>, shown: Seq<G>, background: G, k: int) -> nat
    decreases k,
{
    if k <= 0 {
        0
    } else if skippable(next[k - 1], shown[k - 1], background) {
        run_before(next, shown, background, k - 1) + 1
    } else {
        0
    }
}

/// The instructions for one cell that follows a run of `run` skipped
/// cells: none if the cell is skipped too; else the movement over the run,
/// if there is one, and the cell's glyph.
pub open spec fn cell_ops<G>(next: G, shown: G, background: G, run: nat) -> Seq<PaintOp<G>> {
    if skippable(next, shown, background) {
        Seq::empty()
    } else if run > 0 {
        seq![PaintOp::Forward(run), PaintOp::Put(next)]
    } else {
        seq![PaintOp::Put(next)]
    }
}

/// The instructions for the first `k` cells of a row. A run of skipped
/// cells is emitted, as one movement, only once a cell to write follows it.
pub open spec fn row_ops<G>(next: Seq<G>, shown: Seq<G>, background: G, k: int) -> Seq<PaintOp<G>>
    decreases k,
{
    if k <= 0 {
        Seq::empty()
    } else {
        row_ops(next, shown, background, k - 1) + cell_ops(
            next[k - 1],
            shown[k - 1],
            background,
            run_before(next, shown, background, k - 1),
        )
    }
}

/// The instructions for the first `i` rows of a frame: the cursor is homed
/// once, and every row ends with a line terminator.
pub open spec fn rows_ops<G>(
    next: Seq<Seq<G>>,
    shown: Seq<Seq<G>>,
    background: G,
    i: int,
) -> Seq<PaintOp<G>>
    decreases i,
{
    if i <= 0 {
        seq![PaintOp::Home]
    } else {
        rows_ops(next, shown, background, i - 1) + row_ops(
            next[i - 1],
            shown[i - 1],
            background,
            next[i - 1].len() as int,
        ).push(PaintOp::NewLine)
    }
}

/// The instructions that turn the frame `shown` into the frame `next`.
pub open spec fn frame_ops<G>(next: Seq<Seq<G>>, shown: Seq<Seq<G>>, background: G) -> Seq<
    PaintOp<G>,
> {
    rows_ops(next, shown, background, next.len() as int)
}

/// The instructions that write the first `k` cells of a row, skipping
/// none.
pub open spec fn full_row_ops<G>(next: Seq<G>, k: int) -> Seq<PaintOp<G>> {
    Seq::new(k as nat, |j: int| PaintOp::Put(next[j]))
}

/// The instructions that write the first `i` rows of a frame in full.
pub open spec fn full_rows_ops<G>(next: Seq<Seq<G>>, i: int) -> Seq<PaintOp<G>>
    decreases i,
{
    if i <= 0 {
        seq![PaintOp::Home]
    } else {
        full_rows_ops(next, i - 1) + full_row_ops(next[i - 1], next[i - 1].len() as int).push(
            PaintOp::NewLine,
        )
    }
}

/// The instructions that write a frame in full, whatever the terminal
/// shows.
pub open spec fn full_ops<G>(next: Seq<Seq<G>>) -> Seq<PaintOp<G>> {
    full_rows_ops(next, next.len() as int)
}

/// Two fields have the same number of rows, and row by row the same number
/// of cells.
pub open spec fn same_shape<A, B>(a: Seq<Seq<A>>, b: Seq<Seq<B>>) -> bool {
    &&& a.len() == b.len()
    &&& forall|i: int| 0 <= i < a.len() ==> (#[trigger] a[i]).len() == b[i].len()
}

/// The encoding of a sequence is the encodings of its parts, one after the
/// other.
pub proof fn lemma_encode_concat(a: Seq<PaintOp<char>>, b: Seq<PaintOp<char>>)
    ensures
        encode(a + b) == encode(a) + encode(b),
    decreases b.len(),
{
    if b.len() == 0 {
        assert(a + b =~= a);
        assert(encode(a) + encode(b) =~= encode(a));
    } else {
        assert((a + b).drop_last() =~= a + b.drop_last());
        assert((a + b).last() == b.last());
        lemma_encode_concat(a, b.drop_last());
        assert(encode(a + b) =~= encode(a) + encode(b));
    }
}

/// Adding one instruction adds its characters.
pub proof fn lemma_encode_push(a: Seq<PaintOp<char>>, op: PaintOp<char>)
    ensures
        encode(a.push(op)) == encode(a) + encode_op(op),
{
    assert(a.push(op).drop_last() =~= a);
}

/// Appends one character. This is `String::push`, which vstd leaves without
/// a contract: the string afterwards is the string before with `c` at its
/// end.
#[verifier::external_body]
fn push_char(s: &mut String, c: char)
    ensures
        final(s)@ == old(s)@.push(c),
{
    s.push(c);
}

/// Appends a number in decimal.
fn push_decimal(s: &mut String, n: usize)
    ensures
        final(s)@ == old(s)@ + decimal(n as nat),
    decreases n,
{
    if n >= 10 {
        push_decimal(s, n / 10);
    }
    let d: u8 = (n % 10) as u8;
    push_char(s, (d + 48) as char);
    assert(s@ =~= old(s)@ + decimal(n as nat));
}

/// Appends the cursor movement over a run of `n` skipped cells.
fn push_forward(s: &mut String, n: usize)
    ensures
        final(s)@ == old(s)@ + encode_op(PaintOp::Forward(n as nat)),
{
    push_char(s, '\x1b');
    push_char(s, '[');
    push_decimal(s, n);
    push_char(s, 'C');
    assert(s@ =~= old(s)@ + encode_op(PaintOp::Forward(n as nat)));
}

/// Appends the text of one row: what to write and how far to move between
/// the writes, then the line terminator. Literal glyphs are gathered in a
/// buffer that is flushed when a skipped cell follows and at the end of the
/// row.
fn push_row(frame: &mut String, next: &Vec<char>, shown: &Vec<char>, background: char)
    requires
        next@.len() == shown@.len(),
    ensures
        final(frame)@ == old(frame)@ + encode(
            row_ops(next@, shown@, background, next@.len() as int).push(PaintOp::NewLine),
        ),
{
    let mut run: usize = 0;
    let mut buffer = String::new();
    let mut j: usize = 0;
    while j < next.len()
        invariant
            j <= next@.len(),
            next@.len() == shown@.len(),
            run == run_before(next@, shown@, background, j as int),
            run <= j,
            run > 0 ==> buffer@.len() == 0,
            frame@ + buffer@ == old(frame)@ + encode(row_ops(next@, shown@, background, j as int)),
        decreases next@.len() - j,
    {
        let ghost before = row_ops(next@, shown@, background, j as int);
        let ghost cell = cell_ops(next@[j as int], shown@[j as int], background, run as nat);
        proof {
            lemma_encode_concat(before, cell);
        }
        let c = next[j];
        if c != background || shown[j] != background {
            if run > 0 {
                assert(frame@ =~= old(frame)@ + encode(before));
                push_forward(frame, run);
                proof {
                    lemma_encode_push(seq![PaintOp::Forward(run as nat)], PaintOp::Put(c));
                    lemma_encode_push(Seq::empty(), PaintOp::Forward(run as nat));
                    assert(Seq::<PaintOp<char>>::empty().push(PaintOp::Forward(run as nat)).push(
                        PaintOp::Put(c),
                    ) =~= cell);
                }
                run = 0;
            } else {
                proof {
                    lemma_encode_push(Seq::empty(), PaintOp::Put(c));
                    assert(Seq::<PaintOp<char>>::empty().push(PaintOp::Put(c)) =~= cell);
                }
            }
            let ghost moved = frame@ + buffer@;
            push_char(&mut buffer, c);
            assert(frame@ + buffer@ =~= moved + seq![c]);
            assert(frame@ + buffer@ =~= old(frame)@ + encode(before) + encode(cell));
        } else {
            if !buffer.as_str().is_empty() {
                frame.append(buffer.as_str());
                buffer = String::new();
            }
            assert(frame@ + buffer@ =~= old(frame)@ + encode(before) + encode(cell));
            run += 1;
        }
        j += 1;
    }
    let ghost ops = row_ops(next@, shown@, background, next@.len() as int);
    frame.append(buffer.as_str());
    push_char(frame, '\n');
    proof {
        lemma_encode_push(ops, PaintOp::NewLine);
        assert(frame@ =~= old(frame)@ + encode(ops) + encode_op(PaintOp::NewLine));
    }
}

/// The text that, written to a terminal that shows `shown`, makes it show
/// `next`.
pub fn paint_text(next: &Vec<Vec<char>>, shown: &Vec<Vec<char>>, background: char) -> (text: String)
    requires
        same_shape(grid(next), grid(shown)),
    ensures
        text@ == encode(frame_ops(grid(next), grid(shown), background)),
{
    let mut text = String::new();
    push_char(&mut text, '\x1b');
    push_char(&mut text, '[');
    push_char(&mut text, 'H');
    proof {
        lemma_encode_push(Seq::empty(), PaintOp::Home);
        assert(Seq::<PaintOp<char>>::empty().push(PaintOp::Home) =~= seq![PaintOp::Home]);
        assert(text@ =~= encode(rows_ops(grid(next), grid(shown), background, 0)));
    }
    let mut i: usize = 0;
    while i < next.len()
        invariant
            i <= next@.len(),
            same_shape(grid(next), grid(shown)),
            text@ == encode(rows_ops(grid(next), grid(shown), background, i as int)),
        decreases next@.len() - i,
    {
        assert(grid(next)[i as int].len() == grid(shown)[i as int].len());
        proof {
            lemma_encode_concat(
                rows_ops(grid(next), grid(shown), background, i as int),
                row_ops(next@[i as int]@, shown@[i as int]@, background, next@[i as int]@.len() as int).push(
                    PaintOp::NewLine,
                ),
            );
        }
        push_row(&mut text, &next[i], &shown[i], background);
        i += 1;
    }
    text
}

/// The text that makes a terminal show `next`, whatever it showed before:
/// every glyph is written.
pub fn full_text(next: &Vec<Vec<char>>) -> (text: String)
    ensures
        text@ == encode(full_ops(grid(next))),
{
    let mut text = String::new();
    push_char(&mut text, '\x1b');
    push_char(&mut text, '[');
    push_char(&mut text, 'H');
    proof {
        lemma_encode_push(Seq::empty(), PaintOp::Home);
        assert(Seq::<PaintOp<char>>::empty().push(PaintOp::Home) =~= seq![PaintOp::Home]);
        assert(text@ =~= encode(full_rows_ops(grid(next), 0)));
    }
    let mut i: usize = 0;
    while i < next.len()
        invariant
            i <= next@.len(),
            text@ == encode(full_rows_ops(grid(next), i as int)),
        decreases next@.len() - i,
    {
        let row = &next[i];
        let ghost above = full_rows_ops(grid(next), i as int);
        let mut j: usize = 0;
        while j < row.len()
            invariant
                j <= row@.len(),
                text@ == encode(above) + encode(full_row_ops(row@, j as int)),
            decreases row@.len() - j,
        {
            proof {
                lemma_encode_push(full_row_ops(row@, j as int), PaintOp::Put(row@[j as int]));
                assert(full_row_ops(row@, j as int).push(PaintOp::Put(row@[j as int]))
                    =~= full_row_ops(row@, j + 1));
            }
            push_char(&mut text, row[j]);
            assert(text@ =~= encode(above) + encode(full_row_ops(row@, j + 1)));
            j += 1;
        }
        push_char(&mut text, '\n');
        proof {
            let ops = full_row_ops(row@, row@.len() as int);
            lemma_encode_push(ops, PaintOp::NewLine);
            lemma_encode_concat(above, ops.push(PaintOp::NewLine));
            assert(text@ =~= encode(above) + encode(ops.push(PaintOp::NewLine)));
        }
        i += 1;
    }
    text
}

} // verus!
