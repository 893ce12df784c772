//! The screen state machine: a bounded character grid with a cursor and a
//! scroll region, mutated exclusively by applying tokens in arrival order.
//!
//! Applying a token is pure with respect to the token stream: the whole
//! transition is the mathematical function [`spec_apply`], and the exec
//! methods are proved to implement it.  Cursor movements clamp to the grid
//! bounds; erase, insert, delete and scroll operations shift cells and fill
//! the vacated ones with blanks; commands the machine does not implement are
//! accepted and ignored.  Lines discarded by scrolling are counted in a
//! saturating counter, so truncation is observable rather than silent.

use vstd::prelude::*;

verus! {

use vstd::slice::slice_subrange;
use vstd::utf8::decode_first_scalar;
use vstd::utf8::length_of_first_scalar;
use vstd::utf8::valid_first_scalar;

use crate::enums::C0;
use crate::enums::EscapeSequence;
use crate::enums::Token;
use crate::enums::TokenView;

/// The blank cell: a space.
pub open spec fn blank_cell() -> u32 {
    0x20
}

/// The smaller of two integers.
pub open spec fn imin(a: int, b: int) -> int {
    if a <= b {
        a
    } else {
        b
    }
}

/// The larger of two integers.
pub open spec fn imax(a: int, b: int) -> int {
    if a >= b {
        a
    } else {
        b
    }
}

/// The mathematical model of the screen: grid contents as a sequence of rows
/// of Unicode scalar values, the cursor, the scroll region (inclusive, rows
/// `top..=bottom`), and the saturating count of lines lost to scrolling.
#[verifier::ext_equal]
pub struct ScreenView {
    pub rows: int,
    pub cols: int,
    pub grid: Seq<Seq<u32>>,
    pub cur_row: int,
    pub cur_col: int,
    pub top: int,
    pub bottom: int,
    pub lost: int,
}

impl ScreenView {
    /// Well-formedness: the grid fills its dimensions, the cursor is on the
    /// grid, and the scroll region is a non-empty range of rows.
    pub open spec fn wf(self) -> bool {
        &&& 1 <= self.rows
        &&& 1 <= self.cols
        &&& self.grid.len() == self.rows
        &&& forall|i: int| 0 <= i < self.rows ==> (#[trigger] self.grid[i]).len() == self.cols
        &&& 0 <= self.cur_row < self.rows
        &&& 0 <= self.cur_col < self.cols
        &&& 0 <= self.top <= self.bottom < self.rows
        &&& 0 <= self.lost <= u64::MAX
    }
}

/// A row of blanks.
pub open spec fn blank_row(cols: int) -> Seq<u32> {
    Seq::new(cols as nat, |j: int| blank_cell())
}

/// The freshly created screen: all blank, cursor at the origin, the scroll
/// region covering the whole grid.
pub open spec fn initial_screen(rows: int, cols: int) -> ScreenView {
    ScreenView {
        rows: rows,
        cols: cols,
        grid: Seq::new(rows as nat, |i: int| blank_row(cols)),
        cur_row: 0,
        cur_col: 0,
        top: 0,
        bottom: rows - 1,
        lost: 0,
    }
}

/// Add discarded lines to the saturating loss counter.
pub open spec fn add_lost(lost: int, k: int) -> int {
    if lost + k > u64::MAX {
        u64::MAX as int
    } else {
        lost + k
    }
}

/// Scroll the region up by `n` lines: rows move toward `top`, the vacated
/// bottom rows become blank, and the discarded lines are counted.
pub open spec fn spec_scroll_up(v: ScreenView, n: int) -> ScreenView {
    ScreenView {
        grid: Seq::new(
            v.grid.len(),
            |i: int|
                if v.top <= i <= v.bottom {
                    if i + n <= v.bottom {
                        v.grid[i + n]
                    } else {
                        blank_row(v.cols)
                    }
                } else {
                    v.grid[i]
                },
        ),
        lost: add_lost(v.lost, imin(n, v.bottom - v.top + 1)),
        ..v
    }
}

/// Scroll the region down by `n` lines: rows move toward `bottom`, the
/// vacated top rows become blank, and the discarded lines are counted.
pub open spec fn spec_scroll_down(v: ScreenView, n: int) -> ScreenView {
    ScreenView {
        grid: Seq::new(
            v.grid.len(),
            |i: int|
                if v.top <= i <= v.bottom {
                    if i - n >= v.top {
                        v.grid[i - n]
                    } else {
                        blank_row(v.cols)
                    }
                } else {
                    v.grid[i]
                },
        ),
        lost: add_lost(v.lost, imin(n, v.bottom - v.top + 1)),
        ..v
    }
}

/// Overwrite one cell.
pub open spec fn spec_set_cell(v: ScreenView, r: int, c: int, ch: u32) -> ScreenView {
    ScreenView { grid: v.grid.update(r, v.grid[r].update(c, ch)), ..v }
}

/// Move the cursor to the next line, same column, scrolling the region when
/// the cursor sits on its bottom line and stopping at the last grid line
/// otherwise.
pub open spec fn spec_line_feed(v: ScreenView) -> ScreenView {
    if v.cur_row == v.bottom {
        spec_scroll_up(v, 1)
    } else if v.cur_row + 1 < v.rows {
        ScreenView { cur_row: v.cur_row + 1, ..v }
    } else {
        v
    }
}

/// Write one scalar at the cursor and advance: past the last column the
/// cursor wraps to column zero of the next line, scrolling if it was on the
/// bottom line of the scroll region.
pub open spec fn spec_write_scalar(v: ScreenView, ch: u32) -> ScreenView {
    let w = spec_set_cell(v, v.cur_row, v.cur_col, ch);
    if v.cur_col + 1 < v.cols {
        ScreenView { cur_col: v.cur_col + 1, ..w }
    } else {
        ScreenView { cur_col: 0, ..spec_line_feed(w) }
    }
}

/// Write a text token: each scalar decoded from the bytes in turn, an
/// undecodable byte writing the replacement character and advancing by one.
pub open spec fn spec_apply_text(v: ScreenView, bytes: Seq<u8>) -> ScreenView
    decreases bytes.len(),
{
    if bytes.len() == 0 {
        v
    } else if valid_first_scalar(bytes) {
        spec_apply_text(
            spec_write_scalar(v, decode_first_scalar(bytes)),
            bytes.skip(length_of_first_scalar(bytes)),
        )
    } else {
        spec_apply_text(spec_write_scalar(v, 0xfffd), bytes.skip(1))
    }
}

/// Apply a C0 control code: line feed, carriage return and backspace move
/// the cursor; every other control code has no grid effect.
pub open spec fn spec_apply_c0(v: ScreenView, c: C0) -> ScreenView {
    match c {
        C0::LF => spec_line_feed(v),
        C0::CR => ScreenView { cur_col: 0, ..v },
        C0::BS => ScreenView { cur_col: imax(v.cur_col - 1, 0), ..v },
        _ => v,
    }
}

/// A 1-based parameter as a 0-based index clamped into `[0, limit)`; the
/// values 0 and 1 both name the first line or column.
pub open spec fn clamp1(p: u32, limit: int) -> int {
    imin(imax(p - 1, 0), limit - 1)
}

/// A row with every cell at or after `from` blank.
pub open spec fn blank_from(row: Seq<u32>, from: int) -> Seq<u32> {
    Seq::new(row.len(), |j: int| if j >= from { blank_cell() } else { row[j] })
}

/// A row with every cell at or before `to` blank.
pub open spec fn blank_to(row: Seq<u32>, to: int) -> Seq<u32> {
    Seq::new(row.len(), |j: int| if j <= to { blank_cell() } else { row[j] })
}

/// Erase in display: 0 erases from the cursor (inclusive) to the end of the
/// grid, 1 from the start of the grid to the cursor (inclusive), 2 the whole
/// grid; other parameter values do nothing.
pub open spec fn spec_erase_display(v: ScreenView, m: u32) -> ScreenView {
    if m == 0 {
        ScreenView {
            grid: Seq::new(
                v.grid.len(),
                |i: int|
                    if i > v.cur_row {
                        blank_row(v.cols)
                    } else if i == v.cur_row {
                        blank_from(v.grid[i], v.cur_col)
                    } else {
                        v.grid[i]
                    },
            ),
            ..v
        }
    } else if m == 1 {
        ScreenView {
            grid: Seq::new(
                v.grid.len(),
                |i: int|
                    if i < v.cur_row {
                        blank_row(v.cols)
                    } else if i == v.cur_row {
                        blank_to(v.grid[i], v.cur_col)
                    } else {
                        v.grid[i]
                    },
            ),
            ..v
        }
    } else if m == 2 {
        ScreenView { grid: Seq::new(v.grid.len(), |i: int| blank_row(v.cols)), ..v }
    } else {
        v
    }
}

/// Erase in line: 0 erases from the cursor (inclusive) to the end of the
/// line, 1 from the start of the line to the cursor (inclusive), 2 the whole
/// line; other parameter values do nothing.
pub open spec fn spec_erase_line(v: ScreenView, m: u32) -> ScreenView {
    if m == 0 {
        ScreenView { grid: v.grid.update(v.cur_row, blank_from(v.grid[v.cur_row], v.cur_col)), ..v }
    } else if m == 1 {
        ScreenView { grid: v.grid.update(v.cur_row, blank_to(v.grid[v.cur_row], v.cur_col)), ..v }
    } else if m == 2 {
        ScreenView { grid: v.grid.update(v.cur_row, blank_row(v.cols)), ..v }
    } else {
        v
    }
}

/// Insert `n` blank lines at the cursor row, shifting the lines from the
/// cursor to the bottom of the scroll region down; no effect when the cursor
/// is outside the region.
pub open spec fn spec_insert_lines(v: ScreenView, n: u32) -> ScreenView {
    if v.top <= v.cur_row <= v.bottom {
        ScreenView {
            grid: Seq::new(
                v.grid.len(),
                |i: int|
                    if v.cur_row <= i <= v.bottom {
                        if i - n >= v.cur_row {
                            v.grid[i - n]
                        } else {
                            blank_row(v.cols)
                        }
                    } else {
                        v.grid[i]
                    },
            ),
            ..v
        }
    } else {
        v
    }
}

/// Delete `n` lines at the cursor row, shifting the lines below up to the
/// cursor and filling the bottom of the scroll region with blanks; no effect
/// when the cursor is outside the region.
pub open spec fn spec_delete_lines(v: ScreenView, n: u32) -> ScreenView {
    if v.top <= v.cur_row <= v.bottom {
        ScreenView {
            grid: Seq::new(
                v.grid.len(),
                |i: int|
                    if v.cur_row <= i <= v.bottom {
                        if i + n <= v.bottom {
                            v.grid[i + n]
                        } else {
                            blank_row(v.cols)
                        }
                    } else {
                        v.grid[i]
                    },
            ),
            ..v
        }
    } else {
        v
    }
}

/// Insert `n` blank cells at the cursor, shifting the rest of the line right
/// and dropping what falls off the end.
pub open spec fn spec_insert_chars(v: ScreenView, n: u32) -> ScreenView {
    ScreenView {
        grid: v.grid.update(
            v.cur_row,
            Seq::new(
                v.grid[v.cur_row].len(),
                |j: int|
                    if j >= v.cur_col {
                        if j - n >= v.cur_col {
                            v.grid[v.cur_row][j - n]
                        } else {
                            blank_cell()
                        }
                    } else {
                        v.grid[v.cur_row][j]
                    },
            ),
        ),
        ..v
    }
}

/// Delete `n` cells at the cursor, shifting the rest of the line left and
/// filling the end of the line with blanks.
pub open spec fn spec_delete_chars(v: ScreenView, n: u32) -> ScreenView {
    ScreenView {
        grid: v.grid.update(
            v.cur_row,
            Seq::new(
                v.grid[v.cur_row].len(),
                |j: int|
                    if j >= v.cur_col {
                        if j + n < v.cols {
                            v.grid[v.cur_row][j + n]
                        } else {
                            blank_cell()
                        }
                    } else {
                        v.grid[v.cur_row][j]
                    },
            ),
        ),
        ..v
    }
}

/// Set the scroll region from 1-based top and bottom margins; ignored unless
/// `1 <= t < b <= rows`.  The cursor does not move.
pub open spec fn spec_set_margins(v: ScreenView, t: u32, b: u32) -> ScreenView {
    if 1 <= t && (t as int) < (b as int) && b <= v.rows {
        ScreenView { top: t - 1, bottom: b - 1, ..v }
    } else {
        v
    }
}

/// Apply one escape command.  Cursor-relative moves clamp to the grid
/// bounds; absolute positioning clamps into the grid; the erase, insert,
/// delete and scroll families act as their helpers say; every other command
/// is accepted and ignored.
pub open spec fn spec_apply_cmd(v: ScreenView, cmd: EscapeSequence) -> ScreenView {
    match cmd {
        EscapeSequence::ICH(n) => spec_insert_chars(v, n),
        EscapeSequence::CUU(n) => ScreenView { cur_row: imax(v.cur_row - n, 0), ..v },
        EscapeSequence::CUD(n) => ScreenView { cur_row: imin(v.cur_row + n, v.rows - 1), ..v },
        EscapeSequence::CUF(n) => ScreenView { cur_col: imin(v.cur_col + n, v.cols - 1), ..v },
        EscapeSequence::CUB(n) => ScreenView { cur_col: imax(v.cur_col - n, 0), ..v },
        EscapeSequence::CNL(n) => ScreenView {
            cur_row: imin(v.cur_row + n, v.rows - 1),
            cur_col: 0,
            ..v
        },
        EscapeSequence::CPL(n) => ScreenView { cur_row: imax(v.cur_row - n, 0), cur_col: 0, ..v },
        EscapeSequence::CHA(n) => ScreenView { cur_col: clamp1(n, v.cols), ..v },
        EscapeSequence::CUP(r, c) => ScreenView {
            cur_row: clamp1(r, v.rows),
            cur_col: clamp1(c, v.cols),
            ..v
        },
        EscapeSequence::HVP(r, c) => ScreenView {
            cur_row: clamp1(r, v.rows),
            cur_col: clamp1(c, v.cols),
            ..v
        },
        EscapeSequence::VPA(n) => ScreenView { cur_row: clamp1(n, v.rows), ..v },
        EscapeSequence::ED(m) => spec_erase_display(v, m),
        EscapeSequence::EL(m) => spec_erase_line(v, m),
        EscapeSequence::IL(n) => spec_insert_lines(v, n),
        EscapeSequence::DL(n) => spec_delete_lines(v, n),
        EscapeSequence::DCH(n) => spec_delete_chars(v, n),
        EscapeSequence::SU(n) => spec_scroll_up(v, n as int),
        EscapeSequence::SD(n) => spec_scroll_down(v, n as int),
        EscapeSequence::DECSTBM(t, b) => spec_set_margins(v, t, b),
        _ => v,
    }
}

/// Apply one token to the screen.
pub open spec fn spec_apply(v: ScreenView, t: TokenView) -> ScreenView {
    match t {
        TokenView::Text(bytes) => spec_apply_text(v, bytes),
        TokenView::C0(c) => spec_apply_c0(v, c),
        TokenView::EscapeSequence(cmd) => spec_apply_cmd(v, cmd),
    }
}

/// Apply a whole token stream, in order.
pub open spec fn spec_apply_tokens(v: ScreenView, ts: Seq<TokenView>) -> ScreenView
    decreases ts.len(),
{
    if ts.len() == 0 {
        v
    } else {
        spec_apply_tokens(spec_apply(v, ts[0]), ts.drop_first())
    }
}

/// The bounded character grid, its cursor and its scroll region.
#[derive(Debug)]
pub struct Screen {
    rows: usize,
    cols: usize,
    cells: Vec<Vec<u32>>,
    cur_row: usize,
    cur_col: usize,
    top: usize,
    bottom: usize,
    lost: u64,
}

impl View for Screen {
    type V = ScreenView;

    closed spec fn view(&self) -> ScreenView {
        ScreenView {
            rows: self.rows as int,
            cols: self.cols as int,
            grid: self.cells@.map_values(|r: Vec<u32>| r@),
            cur_row: self.cur_row as int,
            cur_col: self.cur_col as int,
            top: self.top as int,
            bottom: self.bottom as int,
            lost: self.lost as int,
        }
    }
}

/// A fresh row of blanks.
fn blank_line(cols: usize) -> (r: Vec<u32>)
    ensures
        r@ == blank_row(cols as int),
{
    let mut out: Vec<u32> = Vec::new();
    let mut j: usize = 0;
    while j < cols
        invariant
            j <= cols,
            out@.len() == j,
            forall|k: int| 0 <= k < j ==> out@[k] == blank_cell(),
        decreases cols - j,
    {
        out.push(0x20);
        j = j + 1;
    }
    proof {
        assert(out@ =~= blank_row(cols as int));
    }
    out
}

/// A copy of a row with every cell at or after `from` blank.
fn row_blank_from(row: &Vec<u32>, from: usize) -> (r: Vec<u32>)
    ensures
        r@ == blank_from(row@, from as int),
{
    let mut out: Vec<u32> = Vec::new();
    let mut j: usize = 0;
    while j < row.len()
        invariant
            j <= row@.len(),
            out@.len() == j,
            forall|k: int| 0 <= k < j ==> out@[k] == blank_from(row@, from as int)[k],
        decreases row@.len() - j,
    {
        if j < from {
            out.push(row[j]);
        } else {
            out.push(0x20);
        }
        j = j + 1;
    }
    proof {
        assert(out@ =~= blank_from(row@, from as int));
    }
    out
}

/// A copy of a row with every cell at or before `to` blank.
fn row_blank_to(row: &Vec<u32>, to: usize) -> (r: Vec<u32>)
    ensures
        r@ == blank_to(row@, to as int),
{
    let mut out: Vec<u32> = Vec::new();
    let mut j: usize = 0;
    while j < row.len()
        invariant
            j <= row@.len(),
            out@.len() == j,
            forall|k: int| 0 <= k < j ==> out@[k] == blank_to(row@, to as int)[k],
        decreases row@.len() - j,
    {
        if j <= to {
            out.push(0x20);
        } else {
            out.push(row[j]);
        }
        j = j + 1;
    }
    proof {
        assert(out@ =~= blank_to(row@, to as int));
    }
    out
}

/// A copy of a row.
fn clone_row(row: &Vec<u32>) -> (r: Vec<u32>)
    ensures
        r@ == row@,
{
    let mut out: Vec<u32> = Vec::new();
    let mut j: usize = 0;
    while j < row.len()
        invariant
            j <= row@.len(),
            out@.len() == j,
            forall|k: int| 0 <= k < j ==> out@[k] == row@[k],
        decreases row@.len() - j,
    {
        out.push(row[j]);
        j = j + 1;
    }
    proof {
        assert(out@ =~= row@);
    }
    out
}

impl Screen {
    /// A blank screen of the given dimensions, cursor at the origin, scroll
    /// region covering the whole grid.
    pub fn new(rows: usize, cols: usize) -> (r: Screen)
        requires
            1 <= rows,
            1 <= cols,
        ensures
            r@ == initial_screen(rows as int, cols as int),
            r@.wf(),
    {
        let mut cells: Vec<Vec<u32>> = Vec::new();
        let mut i: usize = 0;
        while i < rows
            invariant
                i <= rows,
                cells@.len() == i,
                forall|k: int| 0 <= k < i ==> (#[trigger] cells@[k])@ == blank_row(cols as int),
        decreases rows - i,
        {
            cells.push(blank_line(cols));
            i = i + 1;
        }
        let r = Screen {
            rows,
            cols,
            cells,
            cur_row: 0,
            cur_col: 0,
            top: 0,
            bottom: rows - 1,
            lost: 0,
        };
        proof {
            assert(r@.grid =~= initial_screen(rows as int, cols as int).grid);
            assert(r@ =~= initial_screen(rows as int, cols as int));
        }
        r
    }

    /// Overwrite the cell at `(r, c)`.
    fn set_cell(&mut self, r: usize, c: usize, ch: u32)
        requires
            old(self)@.wf(),
            r < old(self)@.rows,
            c < old(self)@.cols,
        ensures
            final(self)@ == spec_set_cell(old(self)@, r as int, c as int, ch),
            final(self)@.wf(),
    {
        proof {
            assert(old(self)@.grid[r as int] == self.cells@[r as int]@);
        }
        let mut row: Vec<u32> = clone_row(&self.cells[r]);
        row.set(c, ch);
        self.cells.set(r, row);
        proof {
            assert(self@.grid =~= spec_set_cell(old(self)@, r as int, c as int, ch).grid);
            assert(self@ =~= spec_set_cell(old(self)@, r as int, c as int, ch));
        }
    }

    /// Scroll the region up by `n` lines.
    #[verifier::loop_isolation(false)]
    fn scroll_up(&mut self, n: u32)
        requires
            old(self)@.wf(),
        ensures
            final(self)@ == spec_scroll_up(old(self)@, n as int),
            final(self)@.wf(),
    {
        let ghost target = spec_scroll_up(old(self)@, n as int);
        let mut i: usize = self.top;
        while i <= self.bottom
            invariant
                old(self)@.wf(),
                self.rows == old(self).rows,
                self.cols == old(self).cols,
                self.cur_row == old(self).cur_row,
                self.cur_col == old(self).cur_col,
                self.top == old(self).top,
                self.bottom == old(self).bottom,
                self.lost == old(self).lost,
                old(self)@.top <= i <= old(self)@.bottom + 1,
                self.cells@.len() == old(self)@.rows,
                forall|k: int| old(self)@.top <= k < i ==> (#[trigger] self.cells@[k])@
                    == target.grid[k],
                forall|k: int| 0 <= k < old(self)@.rows && !(old(self)@.top <= k < i) ==> (
                #[trigger] self.cells@[k])@ == old(self)@.grid[k],
            decreases old(self)@.bottom + 1 - i,
        {
            let new_row: Vec<u32> = if (n as usize) <= self.bottom - i {
                clone_row(&self.cells[i + (n as usize)])
            } else {
                blank_line(self.cols)
            };
            proof {
                assert(new_row@ == target.grid[i as int]);
            }
            self.cells.set(i, new_row);
            proof {
                assert(self.cells@[i as int]@ == target.grid[i as int]);
            }
            i = i + 1;
        }
        let k: u64 = {
            let region: usize = self.bottom - self.top + 1;
            if (n as usize) < region {
                n as u64
            } else {
                region as u64
            }
        };
        self.lost = if self.lost > u64::MAX - k {
            u64::MAX
        } else {
            self.lost + k
        };
        proof {
            assert(self@.grid =~= target.grid);
            assert(self@ =~= target);
        }
    }

    /// Move the cursor to the next line, scrolling when it sits on the
    /// bottom line of the scroll region.
    fn line_feed(&mut self)
        requires
            old(self)@.wf(),
        ensures
            final(self)@ == spec_line_feed(old(self)@),
            final(self)@.wf(),
    {
        if self.cur_row == self.bottom {
            self.scroll_up(1);
        } else if self.cur_row + 1 < self.rows {
            self.cur_row = self.cur_row + 1;
        }
    }

    /// Write one scalar at the cursor and advance, wrapping and scrolling at
    /// the right edge.
    fn write_scalar(&mut self, ch: u32)
        requires
            old(self)@.wf(),
        ensures
            final(self)@ == spec_write_scalar(old(self)@, ch),
            final(self)@.wf(),
    {
        let r: usize = self.cur_row;
        let c: usize = self.cur_col;
        self.set_cell(r, c, ch);
        if c + 1 < self.cols {
            self.cur_col = c + 1;
        } else {
            self.line_feed();
            self.cur_col = 0;
        }
    }

    /// Write a text token's bytes, one decoded scalar at a time.
    fn apply_text(&mut self, bytes: &[u8])
        requires
            old(self)@.wf(),
        ensures
            final(self)@ == spec_apply_text(old(self)@, bytes@),
            final(self)@.wf(),
    {
        let mut pos: usize = 0;
        proof {
            assert(bytes@.skip(0) =~= bytes@);
        }
        while pos < bytes.len()
            invariant
                self@.wf(),
                pos <= bytes@.len(),
                spec_apply_text(old(self)@, bytes@) == spec_apply_text(
                    self@,
                    bytes@.skip(pos as int),
                ),
            decreases bytes@.len() - pos,
        {
            let sub: &[u8] = slice_subrange(bytes, pos, bytes.len());
            proof {
                assert(sub@ =~= bytes@.skip(pos as int));
            }
            match crate::scalar::head(sub) {
                Some((l, v)) => {
                    proof {
                        assert(bytes@.skip(pos as int).skip(l as int) =~= bytes@.skip(
                            pos + l as int,
                        ));
                    }
                    self.write_scalar(v);
                    pos = pos + l;
                },
                None => {
                    proof {
                        assert(bytes@.skip(pos as int).skip(1) =~= bytes@.skip(pos + 1 as int));
                    }
                    self.write_scalar(0xfffd);
                    pos = pos + 1;
                },
            }
        }
        proof {
            assert(bytes@.skip(pos as int).len() == 0);
        }
    }

    /// Erase in display.
    #[verifier::loop_isolation(false)]
    fn erase_display(&mut self, m: u32)
        requires
            old(self)@.wf(),
        ensures
            final(self)@ == spec_erase_display(old(self)@, m),
            final(self)@.wf(),
    {
        let ghost target = spec_erase_display(old(self)@, m);
        if m == 0 {
            let r: usize = self.cur_row;
            let c: usize = self.cur_col;
            proof {
                assert(old(self)@.grid[r as int] == self.cells@[r as int]@);
            }
            let new_row: Vec<u32> = row_blank_from(&self.cells[r], c);
            self.cells.set(r, new_row);
            let mut i: usize = r + 1;
            while i <= self.rows - 1
                invariant
                    r < i <= self.rows,
                    self.rows == old(self).rows,
                    self.cols == old(self).cols,
                    self.cur_row == old(self).cur_row,
                    self.cur_col == old(self).cur_col,
                    self.top == old(self).top,
                    self.bottom == old(self).bottom,
                    self.lost == old(self).lost,
                    self.cells@.len() == old(self)@.rows,
                    forall|k: int| r <= k < i ==> (#[trigger] self.cells@[k])@ == target.grid[k],
                    forall|k: int| 0 <= k < old(self)@.rows && !(r <= k < i) ==> (
                    #[trigger] self.cells@[k])@ == old(self)@.grid[k],
                decreases self.rows - i,
            {
                self.cells.set(i, blank_line(self.cols));
                i = i + 1;
            }
            proof {
                assert(self@.grid =~= target.grid);
                assert(self@ =~= target);
            }
        } else if m == 1 {
            let r: usize = self.cur_row;
            let c: usize = self.cur_col;
            let mut i: usize = 0;
            while i < r
                invariant
                    i <= r,
                    r == old(self).cur_row,
                    self.rows == old(self).rows,
                    self.cols == old(self).cols,
                    self.cur_row == old(self).cur_row,
                    self.cur_col == old(self).cur_col,
                    self.top == old(self).top,
                    self.bottom == old(self).bottom,
                    self.lost == old(self).lost,
                    self.cells@.len() == old(self)@.rows,
                    forall|k: int| 0 <= k < i ==> (#[trigger] self.cells@[k])@ == target.grid[k],
                    forall|k: int| 0 <= k < old(self)@.rows && !(0 <= k < i) ==> (
                    #[trigger] self.cells@[k])@ == old(self)@.grid[k],
                decreases r - i,
            {
                self.cells.set(i, blank_line(self.cols));
                i = i + 1;
            }
            proof {
                assert(old(self)@.grid[r as int] == self.cells@[r as int]@);
            }
            let new_row: Vec<u32> = row_blank_to(&self.cells[r], c);
            self.cells.set(r, new_row);
            proof {
                assert(self@.grid =~= target.grid);
                assert(self@ =~= target);
            }
        } else if m == 2 {
            let mut i: usize = 0;
            while i < self.rows
                invariant
                    i <= self.rows,
                    self.rows == old(self).rows,
                    self.cols == old(self).cols,
                    self.cur_row == old(self).cur_row,
                    self.cur_col == old(self).cur_col,
                    self.top == old(self).top,
                    self.bottom == old(self).bottom,
                    self.lost == old(self).lost,
                    self.cells@.len() == old(self)@.rows,
                    forall|k: int| 0 <= k < i ==> (#[trigger] self.cells@[k])@ == target.grid[k],
                    forall|k: int| 0 <= k < old(self)@.rows && !(0 <= k < i) ==> (
                    #[trigger] self.cells@[k])@ == old(self)@.grid[k],
                decreases self.rows - i,
            {
                self.cells.set(i, blank_line(self.cols));
                i = i + 1;
            }
            proof {
                assert(self@.grid =~= target.grid);
                assert(self@ =~= target);
            }
        }
    }

    /// Erase in line.
    fn erase_line(&mut self, m: u32)
        requires
            old(self)@.wf(),
        ensures
            final(self)@ == spec_erase_line(old(self)@, m),
            final(self)@.wf(),
    {
        let r: usize = self.cur_row;
        let c: usize = self.cur_col;
        proof {
            assert(old(self)@.grid[r as int] == self.cells@[r as int]@);
        }
        if m == 0 {
            let new_row: Vec<u32> = row_blank_from(&self.cells[r], c);
            self.cells.set(r, new_row);
            proof {
                assert(self@.grid =~= spec_erase_line(old(self)@, m).grid);
                assert(self@ =~= spec_erase_line(old(self)@, m));
            }
        } else if m == 1 {
            let new_row: Vec<u32> = row_blank_to(&self.cells[r], c);
            self.cells.set(r, new_row);
            proof {
                assert(self@.grid =~= spec_erase_line(old(self)@, m).grid);
                assert(self@ =~= spec_erase_line(old(self)@, m));
            }
        } else if m == 2 {
            self.cells.set(r, blank_line(self.cols));
            proof {
                assert(self@.grid =~= spec_erase_line(old(self)@, m).grid);
                assert(self@ =~= spec_erase_line(old(self)@, m));
            }
        }
    }

    /// Insert blank lines at the cursor row, shifting the region's tail down.
    #[verifier::loop_isolation(false)]
    fn insert_lines(&mut self, n: u32)
        requires
            old(self)@.wf(),
        ensures
            final(self)@ == spec_insert_lines(old(self)@, n),
            final(self)@.wf(),
    {
        if self.top <= self.cur_row && self.cur_row <= self.bottom {
            let ghost target = spec_insert_lines(old(self)@, n);
            let r: usize = self.cur_row;
            let mut i: usize = self.bottom + 1;
            while i > r
                invariant
                    r <= i <= old(self)@.bottom + 1,
                    self.rows == old(self).rows,
                    self.cols == old(self).cols,
                    self.cur_row == old(self).cur_row,
                    self.cur_col == old(self).cur_col,
                    self.top == old(self).top,
                    self.bottom == old(self).bottom,
                    self.lost == old(self).lost,
                    self.cells@.len() == old(self)@.rows,
                    forall|k: int| i <= k <= old(self)@.bottom ==> (#[trigger] self.cells@[k])@
                        == target.grid[k],
                    forall|k: int| 0 <= k < old(self)@.rows && !(i <= k <= old(self)@.bottom)
                        ==> (#[trigger] self.cells@[k])@ == old(self)@.grid[k],
                decreases i,
            {
                i = i - 1;
                let new_row: Vec<u32> = if i - r >= (n as usize) {
                    clone_row(&self.cells[i - (n as usize)])
                } else {
                    blank_line(self.cols)
                };
                self.cells.set(i, new_row);
            }
            proof {
                assert(self@.grid =~= target.grid);
                assert(self@ =~= target);
            }
        }
    }

    /// Delete lines at the cursor row, shifting the region's tail up.
    #[verifier::loop_isolation(false)]
    fn delete_lines(&mut self, n: u32)
        requires
            old(self)@.wf(),
        ensures
            final(self)@ == spec_delete_lines(old(self)@, n),
            final(self)@.wf(),
    {
        if self.top <= self.cur_row && self.cur_row <= self.bottom {
            let ghost target = spec_delete_lines(old(self)@, n);
            let r: usize = self.cur_row;
            let mut i: usize = r;
            while i <= self.bottom
                invariant
                    r <= i <= old(self)@.bottom + 1,
                    self.rows == old(self).rows,
                    self.cols == old(self).cols,
                    self.cur_row == old(self).cur_row,
                    self.cur_col == old(self).cur_col,
                    self.top == old(self).top,
                    self.bottom == old(self).bottom,
                    self.lost == old(self).lost,
                    self.cells@.len() == old(self)@.rows,
                    forall|k: int| r <= k < i ==> (#[trigger] self.cells@[k])@ == target.grid[k],
                    forall|k: int| 0 <= k < old(self)@.rows && !(r <= k < i) ==> (
                    #[trigger] self.cells@[k])@ == old(self)@.grid[k],
                decreases old(self)@.bottom + 1 - i,
            {
                let new_row: Vec<u32> = if (n as usize) <= self.bottom - i {
                    clone_row(&self.cells[i + (n as usize)])
                } else {
                    blank_line(self.cols)
                };
                self.cells.set(i, new_row);
                i = i + 1;
            }
            proof {
                assert(self@.grid =~= target.grid);
                assert(self@ =~= target);
            }
        }
    }

    /// Insert blank cells at the cursor, shifting the line's tail right.
    #[verifier::loop_isolation(false)]
    fn insert_chars(&mut self, n: u32)
        requires
            old(self)@.wf(),
        ensures
            final(self)@ == spec_insert_chars(old(self)@, n),
            final(self)@.wf(),
    {
        let ghost target = spec_insert_chars(old(self)@, n);
        let r: usize = self.cur_row;
        let c: usize = self.cur_col;
        proof {
            assert(old(self)@.grid[r as int] == self.cells@[r as int]@);
        }
        let mut out: Vec<u32> = Vec::new();
        let mut j: usize = 0;
        while j < self.cols
            invariant
                j <= old(self)@.cols,
                out@.len() == j,
                forall|k: int| 0 <= k < j ==> out@[k] == target.grid[r as int][k],
            decreases self.cols - j,
        {
            let cell: u32 = if j < c {
                *vstd::slice::slice_index_get(self.cells[r].as_slice(), j)
            } else if j - c >= (n as usize) {
                *vstd::slice::slice_index_get(self.cells[r].as_slice(), j - (n as usize))
            } else {
                0x20
            };
            out.push(cell);
            j = j + 1;
        }
        proof {
            assert(out@ =~= target.grid[r as int]);
        }
        self.cells.set(r, out);
        proof {
            assert(self@.grid =~= target.grid);
            assert(self@ =~= target);
        }
    }

    /// Delete cells at the cursor, shifting the line's tail left.
    #[verifier::loop_isolation(false)]
    fn delete_chars(&mut self, n: u32)
        requires
            old(self)@.wf(),
        ensures
            final(self)@ == spec_delete_chars(old(self)@, n),
            final(self)@.wf(),
    {
        let ghost target = spec_delete_chars(old(self)@, n);
        let r: usize = self.cur_row;
        let c: usize = self.cur_col;
        proof {
            assert(old(self)@.grid[r as int] == self.cells@[r as int]@);
        }
        let mut out: Vec<u32> = Vec::new();
        let mut j: usize = 0;
        while j < self.cols
            invariant
                j <= old(self)@.cols,
                out@.len() == j,
                forall|k: int| 0 <= k < j ==> out@[k] == target.grid[r as int][k],
            decreases self.cols - j,
        {
            let cell: u32 = if j < c {
                *vstd::slice::slice_index_get(self.cells[r].as_slice(), j)
            } else if (n as usize) <= self.cols - 1 - j {
                *vstd::slice::slice_index_get(self.cells[r].as_slice(), j + (n as usize))
            } else {
                0x20
            };
            out.push(cell);
            j = j + 1;
        }
        proof {
            assert(out@ =~= target.grid[r as int]);
        }
        self.cells.set(r, out);
        proof {
            assert(self@.grid =~= target.grid);
            assert(self@ =~= target);
        }
    }

    /// Scroll the region down by `n` lines.
    #[verifier::loop_isolation(false)]
    fn scroll_down(&mut self, n: u32)
        requires
            old(self)@.wf(),
        ensures
            final(self)@ == spec_scroll_down(old(self)@, n as int),
            final(self)@.wf(),
    {
        let ghost target = spec_scroll_down(old(self)@, n as int);
        let mut i: usize = self.bottom + 1;
        while i > self.top
            invariant
                old(self)@.top <= i <= old(self)@.bottom + 1,
                self.rows == old(self).rows,
                self.cols == old(self).cols,
                self.cur_row == old(self).cur_row,
                self.cur_col == old(self).cur_col,
                self.top == old(self).top,
                self.bottom == old(self).bottom,
                self.lost == old(self).lost,
                self.cells@.len() == old(self)@.rows,
                forall|k: int| i <= k <= old(self)@.bottom ==> (#[trigger] self.cells@[k])@
                    == target.grid[k],
                forall|k: int| 0 <= k < old(self)@.rows && !(i <= k <= old(self)@.bottom) ==> (
                #[trigger] self.cells@[k])@ == old(self)@.grid[k],
            decreases i,
        {
            i = i - 1;
            let new_row: Vec<u32> = if i - self.top >= (n as usize) {
                clone_row(&self.cells[i - (n as usize)])
            } else {
                blank_line(self.cols)
            };
            self.cells.set(i, new_row);
        }
        let k: u64 = {
            let region: usize = self.bottom - self.top + 1;
            if (n as usize) < region {
                n as u64
            } else {
                region as u64
            }
        };
        self.lost = if self.lost > u64::MAX - k {
            u64::MAX
        } else {
            self.lost + k
        };
        proof {
            assert(self@.grid =~= target.grid);
            assert(self@ =~= target);
        }
    }

    /// Set the scroll region from 1-based margins; ignored when the range is
    /// empty or out of the grid.
    fn set_margins(&mut self, t: u32, b: u32)
        requires
            old(self)@.wf(),
        ensures
            final(self)@ == spec_set_margins(old(self)@, t, b),
            final(self)@.wf(),
    {
        if 1 <= t && t < b && (b as usize) <= self.rows {
            self.top = (t - 1) as usize;
            self.bottom = (b - 1) as usize;
        }
    }

    /// Apply a C0 control code.
    fn apply_c0(&mut self, c: C0)
        requires
            old(self)@.wf(),
        ensures
            final(self)@ == spec_apply_c0(old(self)@, c),
            final(self)@.wf(),
    {
        match c {
            C0::LF => self.line_feed(),
            C0::CR => {
                self.cur_col = 0;
            },
            C0::BS => {
                if self.cur_col > 0 {
                    self.cur_col = self.cur_col - 1;
                }
            },
            _ => {},
        }
    }

    /// Apply an escape command.
    fn apply_cmd(&mut self, cmd: &EscapeSequence)
        requires
            old(self)@.wf(),
        ensures
            final(self)@ == spec_apply_cmd(old(self)@, *cmd),
            final(self)@.wf(),
    {
        match cmd {
            EscapeSequence::ICH(n) => self.insert_chars(*n),
            EscapeSequence::CUU(n) => {
                self.cur_row = if (*n as usize) <= self.cur_row {
                    self.cur_row - (*n as usize)
                } else {
                    0
                };
            },
            EscapeSequence::CUD(n) => {
                let room: usize = self.rows - 1 - self.cur_row;
                self.cur_row = if (*n as usize) <= room {
                    self.cur_row + (*n as usize)
                } else {
                    self.rows - 1
                };
            },
            EscapeSequence::CUF(n) => {
                let room: usize = self.cols - 1 - self.cur_col;
                self.cur_col = if (*n as usize) <= room {
                    self.cur_col + (*n as usize)
                } else {
                    self.cols - 1
                };
            },
            EscapeSequence::CUB(n) => {
                self.cur_col = if (*n as usize) <= self.cur_col {
                    self.cur_col - (*n as usize)
                } else {
                    0
                };
            },
            EscapeSequence::CNL(n) => {
                let room: usize = self.rows - 1 - self.cur_row;
                self.cur_row = if (*n as usize) <= room {
                    self.cur_row + (*n as usize)
                } else {
                    self.rows - 1
                };
                self.cur_col = 0;
            },
            EscapeSequence::CPL(n) => {
                self.cur_row = if (*n as usize) <= self.cur_row {
                    self.cur_row - (*n as usize)
                } else {
                    0
                };
                self.cur_col = 0;
            },
            EscapeSequence::CHA(n) => {
                self.cur_col = clamp_param(*n, self.cols);
            },
            EscapeSequence::CUP(r, c) => {
                self.cur_row = clamp_param(*r, self.rows);
                self.cur_col = clamp_param(*c, self.cols);
            },
            EscapeSequence::HVP(r, c) => {
                self.cur_row = clamp_param(*r, self.rows);
                self.cur_col = clamp_param(*c, self.cols);
            },
            EscapeSequence::VPA(n) => {
                self.cur_row = clamp_param(*n, self.rows);
            },
            EscapeSequence::ED(m) => self.erase_display(*m),
            EscapeSequence::EL(m) => self.erase_line(*m),
            EscapeSequence::IL(n) => self.insert_lines(*n),
            EscapeSequence::DL(n) => self.delete_lines(*n),
            EscapeSequence::DCH(n) => self.delete_chars(*n),
            EscapeSequence::SU(n) => self.scroll_up(*n),
            EscapeSequence::SD(n) => self.scroll_down(*n),
            EscapeSequence::DECSTBM(t, b) => self.set_margins(*t, *b),
            _ => {},
        }
    }

    /// Apply one token to the grid.  The transition is exactly
    /// [`spec_apply`], so the resulting grid depends on the token stream
    /// alone.
    pub fn apply(&mut self, t: &Token)
        requires
            old(self)@.wf(),
        ensures
            final(self)@ == spec_apply(old(self)@, t@),
            final(self)@.wf(),
    {
        match t {
            Token::Text(bytes) => self.apply_text(bytes.as_slice()),
            Token::C0(c) => self.apply_c0(*c),
            Token::EscapeSequence(cmd) => self.apply_cmd(cmd),
        }
    }

    /// Tokenize a byte buffer and apply every token in order.
    #[verifier::loop_isolation(false)]
    pub fn apply_bytes(&mut self, buf: &[u8])
        requires
            old(self)@.wf(),
        ensures
            final(self)@ == spec_apply_tokens(
                old(self)@,
                crate::tokenizer::spec_tokens(buf@),
            ),
            final(self)@.wf(),
    {
        let mut it = crate::tokenizer::AnsiParseIterator::new(buf);
        loop
            invariant
                self@.wf(),
                it.wf(),
                spec_apply_tokens(old(self)@, crate::tokenizer::spec_tokens(buf@))
                    == spec_apply_tokens(self@, crate::tokenizer::spec_tokens(it.remaining())),
            decreases it.remaining().len(),
        {
            let ghost rem = it.remaining();
            match it.next() {
                Some(tok) => {
                    proof {
                        crate::tokenizer::lemma_token_len_bounds(rem);
                        crate::tokenizer::lemma_spec_tokens_step(rem);
                        assert(crate::tokenizer::spec_tokens(rem).drop_first()
                            =~= crate::tokenizer::spec_tokens(
                            rem.skip(crate::tokenizer::spec_token_len(rem)),
                        ));
                    }
                    self.apply(&tok);
                },
                None => {
                    return;
                },
            }
        }
    }

    /// The grid dimensions, rows then columns.
    pub fn size(&self) -> (r: (usize, usize))
        ensures
            r.0 == self@.rows,
            r.1 == self@.cols,
    {
        (self.rows, self.cols)
    }

    /// The cursor position, row then column.
    pub fn cursor(&self) -> (r: (usize, usize))
        ensures
            r.0 == self@.cur_row,
            r.1 == self@.cur_col,
    {
        (self.cur_row, self.cur_col)
    }

    /// The scroll region, inclusive top and bottom rows.
    pub fn scroll_region(&self) -> (r: (usize, usize))
        ensures
            r.0 == self@.top,
            r.1 == self@.bottom,
    {
        (self.top, self.bottom)
    }

    /// How many lines scrolling has discarded (saturating).
    pub fn lost_lines(&self) -> (r: u64)
        ensures
            r == self@.lost,
    {
        self.lost
    }

    /// The scalar value in the cell at `(r, c)`.
    pub fn cell(&self, r: usize, c: usize) -> (ch: u32)
        requires
            self@.wf(),
            r < self@.rows,
            c < self@.cols,
        ensures
            ch == self@.grid[r as int][c as int],
    {
        proof {
            assert(self@.grid[r as int] == self.cells@[r as int]@);
        }
        *vstd::slice::slice_index_get(self.cells[r].as_slice(), c)
    }
}

/// A 1-based parameter as a 0-based index clamped into the grid.
fn clamp_param(p: u32, limit: usize) -> (r: usize)
    requires
        1 <= limit,
    ensures
        r == clamp1(p, limit as int),
{
    let q: u32 = if p >= 1 {
        p - 1
    } else {
        0
    };
    if (q as usize) <= limit - 1 {
        q as usize
    } else {
        limit - 1
    }
}

/// Writing a scalar at the last column of the scroll region's bottom line
/// scrolls the region up by exactly one line: rows above the region and
/// below it keep their contents, the region's rows move up one (the written
/// cell riding along on the former bottom row), the freed bottom row is
/// blank, the lost-line counter grows by one, and the cursor wraps to column
/// zero of the bottom line.
pub proof fn lemma_wrap_scrolls_one_line(v: ScreenView, ch: u32)
    requires
        v.wf(),
        v.cur_row == v.bottom,
        v.cur_col == v.cols - 1,
    ensures
        ({
            let w = spec_write_scalar(v, ch);
            &&& w.cur_row == v.bottom
            &&& w.cur_col == 0
            &&& w.lost == add_lost(v.lost, 1)
            &&& forall|i: int| 0 <= i < v.top ==> w.grid[i] == v.grid[i]
            &&& forall|i: int| v.bottom < i < v.rows ==> w.grid[i] == v.grid[i]
            &&& forall|i: int| v.top <= i < v.bottom - 1 ==> w.grid[i] == v.grid[i + 1]
            &&& v.top < v.bottom ==> w.grid[v.bottom - 1] == v.grid[v.bottom].update(
                v.cols - 1,
                ch,
            )
            &&& w.grid[v.bottom] == blank_row(v.cols)
        }),
{
    let u = spec_set_cell(v, v.cur_row, v.cur_col, ch);
    let w = spec_write_scalar(v, ch);
    assert(w == ScreenView { cur_col: 0, ..spec_scroll_up(u, 1) });
    assert(imin(1, v.bottom - v.top + 1) == 1);
}

} // verus!
