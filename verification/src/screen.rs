//! The incremental terminal protocol: the commands the renderer emits, a
//! cursor model giving each command's effect, and the erase sequence that
//! undoes a previously written block of lines.

use vstd::prelude::*;

verus! {

/// The display colors a horse can be assigned, in palette order.
#[derive(Clone, Copy, Debug, PartialEq, Eq, Structural)]
pub enum HorseColor {
    Red,
    Green,
    Magenta,
    Blue,
    Cyan,
}

/// One command against the output surface. `Text` never contains a line
/// break; line breaks are always the explicit `Newline` command.
#[derive(Debug, PartialEq, Eq)]
pub enum TermOp {
    /// Switch the foreground color for the text that follows.
    SetColor(HorseColor),
    /// Write the characters at the cursor, advancing it within the line.
    Text(String),
    /// End the current line and move to the start of the next one.
    Newline,
    /// Move the cursor up one line, keeping its column.
    CursorUp,
    /// Move the cursor to the start of the current line.
    CarriageReturn,
    /// Clear the contents of the current line, leaving the cursor in place.
    DeleteLine,
}

/// The cursor position after one command, as a row change and new column:
/// colors and line clearing leave the cursor alone, text widens the
/// column, and the movement commands do what their names say.
pub open spec fn op_cursor(op: TermOp, row: int, col: int) -> (int, int) {
    match op {
        TermOp::SetColor(_) => (row, col),
        TermOp::Text(s) => (row, col + s@.len()),
        TermOp::Newline => (row + 1, 0),
        TermOp::CursorUp => (row - 1, col),
        TermOp::CarriageReturn => (row, 0),
        TermOp::DeleteLine => (row, col),
    }
}

/// The cursor position after a whole command sequence has been replayed
/// from `(row, col)`.
pub open spec fn cursor_after(ops: Seq<TermOp>, row: int, col: int) -> (int, int)
    decreases ops.len(),
{
    if ops.len() == 0 {
        (row, col)
    } else {
        let stepped = op_cursor(ops[0], row, col);
        cursor_after(ops.drop_first(), stepped.0, stepped.1)
    }
}

/// Replaying a concatenation is replaying the first part and then the
/// second from wherever the first one left the cursor.
pub proof fn lemma_cursor_append(a: Seq<TermOp>, b: Seq<TermOp>, row: int, col: int)
    ensures
        cursor_after(a + b, row, col) == cursor_after(
            b,
            cursor_after(a, row, col).0,
            cursor_after(a, row, col).1,
        ),
    decreases a.len(),
{
    if a.len() == 0 {
        assert(a + b =~= b);
    } else {
        let stepped = op_cursor(a[0], row, col);
        assert((a + b).drop_first() =~= a.drop_first() + b);
        lemma_cursor_append(a.drop_first(), b, stepped.0, stepped.1);
    }
}

/// The erase sequence for a block of `k` lines: return to the start of
/// the current line, then `k` times move up one line and clear it.
pub open spec fn spec_erase_ops(k: nat) -> Seq<TermOp>
    decreases k,
{
    if k == 0 {
        seq![TermOp::CarriageReturn]
    } else {
        spec_erase_ops((k - 1) as nat) + seq![TermOp::CursorUp, TermOp::DeleteLine]
    }
}

/// Erasing `k` lines moves the cursor `k` rows up and to column zero.
pub proof fn lemma_erase_cursor(k: nat, row: int, col: int)
    ensures
        cursor_after(spec_erase_ops(k), row, col) == (row - k, 0int),
    decreases k,
{
    if k == 0 {
        let ops = spec_erase_ops(0);
        assert(ops.drop_first() =~= Seq::<TermOp>::empty());
        assert(cursor_after(ops, row, col) == cursor_after(ops.drop_first(), row, 0));
    } else {
        lemma_erase_cursor((k - 1) as nat, row, col);
        let prev = spec_erase_ops((k - 1) as nat);
        let tail = seq![TermOp::CursorUp, TermOp::DeleteLine];
        assert(spec_erase_ops(k) == prev + tail);
        lemma_cursor_append(prev, tail, row, col);
        let up_row: int = row - (k - 1);
        assert(cursor_after(tail, up_row, 0) == (row - k, 0int)) by {
            assert(tail.drop_first() =~= seq![TermOp::DeleteLine]);
            assert(seq![TermOp::DeleteLine].drop_first() =~= Seq::<TermOp>::empty());
            assert(cursor_after(tail, up_row, 0) == cursor_after(
                seq![TermOp::DeleteLine],
                up_row - 1,
                0,
            ));
            assert(cursor_after(seq![TermOp::DeleteLine], up_row - 1, 0) == cursor_after(
                Seq::<TermOp>::empty(),
                up_row - 1,
                0,
            ));
        }
    }
}

/// A command sequence that writes exactly `k` display lines: each line is
/// a color switch, one run of text, and an explicit line break.
pub open spec fn writes_lines(ops: Seq<TermOp>, k: nat) -> bool
    decreases k,
{
    if k == 0 {
        ops.len() == 0
    } else {
        &&& ops.len() >= 3
        &&& ops[0] is SetColor
        &&& ops[1] is Text
        &&& ops[2] == TermOp::Newline
        &&& writes_lines(ops.skip(3), (k - 1) as nat)
    }
}

/// Writing `k` lines moves the cursor `k` rows down and leaves it at
/// column zero, whatever the text on the lines is.
pub proof fn lemma_lines_cursor(ops: Seq<TermOp>, k: nat, row: int, col: int)
    requires
        writes_lines(ops, k),
        k >= 1,
    ensures
        cursor_after(ops, row, col) == (row + k, 0int),
    decreases k,
{
    let d1 = ops.drop_first();
    let d2 = d1.drop_first();
    let d3 = d2.drop_first();
    let after_color = op_cursor(ops[0], row, col);
    let after_text = op_cursor(ops[1], after_color.0, after_color.1);
    let after_line = op_cursor(ops[2], after_text.0, after_text.1);
    assert(d1[0] == ops[1]);
    assert(d2[0] == ops[2]);
    assert(d3 =~= ops.skip(3));
    assert(after_line == (row + 1, 0int));
    assert(cursor_after(ops, row, col) == cursor_after(d1, after_color.0, after_color.1));
    assert(cursor_after(d1, after_color.0, after_color.1) == cursor_after(
        d2,
        after_text.0,
        after_text.1,
    ));
    assert(cursor_after(d2, after_text.0, after_text.1) == cursor_after(
        d3,
        after_line.0,
        after_line.1,
    ));
    if k == 1 {
        assert(writes_lines(ops.skip(3), 0nat));
        assert(ops.skip(3).len() == 0);
    } else {
        lemma_lines_cursor(ops.skip(3), (k - 1) as nat, after_line.0, after_line.1);
    }
}

/// The `i`-th three-command group of `ops` paints one display line:
/// a color switch, one run of text, and a line break.
pub open spec fn line_triple_at(ops: Seq<TermOp>, i: int) -> bool {
    &&& ops[3 * i] is SetColor
    &&& ops[3 * i + 1] is Text
    &&& ops[3 * i + 2] == TermOp::Newline
}

/// A sequence made of `n` line-painting triples writes exactly `n` lines.
pub proof fn lemma_triples_write_lines(ops: Seq<TermOp>, n: nat)
    requires
        ops.len() == 3 * n,
        forall|i: int| 0 <= i < n ==> #[trigger] line_triple_at(ops, i),
    ensures
        writes_lines(ops, n),
    decreases n,
{
    if n > 0 {
        assert(line_triple_at(ops, 0));
        let rest = ops.skip(3);
        assert forall|i: int| 0 <= i < n - 1 implies #[trigger] line_triple_at(rest, i) by {
            assert(line_triple_at(ops, i + 1));
            assert(rest[3 * i] == ops[3 * i + 3]);
            assert(rest[3 * i + 1] == ops[3 * i + 4]);
            assert(rest[3 * i + 2] == ops[3 * i + 5]);
        }
        lemma_triples_write_lines(rest, (n - 1) as nat);
    }
}

/// Erase symmetry: erasing a block of `k` lines and writing a fresh block
/// of `k` lines returns the cursor to exactly where the original block of
/// `k` lines had left it.
pub proof fn lemma_erase_render_roundtrip(
    first: Seq<TermOp>,
    second: Seq<TermOp>,
    k: nat,
    row: int,
    col: int,
)
    requires
        writes_lines(first, k),
        writes_lines(second, k),
        k >= 1,
    ensures
        cursor_after(first + spec_erase_ops(k) + second, row, col) == cursor_after(
            first,
            row,
            col,
        ),
{
    lemma_lines_cursor(first, k, row, col);
    lemma_erase_cursor(k, row + k, 0);
    lemma_lines_cursor(second, k, row, 0);
    lemma_cursor_append(first, spec_erase_ops(k), row, col);
    lemma_cursor_append(first + spec_erase_ops(k), second, row, col);
}

/// The commands that erase the block of `line_count` lines most recently
/// written: back to line start, then up-and-clear once per line.
pub fn erase_ops(line_count: usize) -> (ops: Vec<TermOp>)
    ensures
        ops@ == spec_erase_ops(line_count as nat),
{
    let mut ops: Vec<TermOp> = Vec::new();
    ops.push(TermOp::CarriageReturn);
    let mut i: usize = 0;
    while i < line_count
        invariant
            i <= line_count,
            ops@ == spec_erase_ops(i as nat),
        decreases line_count - i,
    {
        ops.push(TermOp::CursorUp);
        ops.push(TermOp::DeleteLine);
        proof {
            assert(ops@ =~= spec_erase_ops((i + 1) as nat));
        }
        i += 1;
    }
    ops
}

} // verus!
