//! The puzzle state: the flat tile array, the selected cell, and every
//! operation the game plays on them.
//!
//! The tiles are a permutation of `1..=width*height`, stored row-major; the
//! board is solved exactly when each adjacent pair of cells increases. The
//! selected cell (cursor) picks the row or column that a rotation moves.
//! Moves are encoded as single-character tokens: lowercase `u d l r`
//! translate the cursor only, uppercase `U D L R` rotate the line through
//! the cursor and then translate it. Every uppercase token has an inverse
//! token, and a recorded solution together with the final cursor position
//! replays backwards to the scramble it solved.

use vstd::prelude::*;
use crate::error::Error;
use crate::rng::{rand_below, shuffle_cells};
use crate::rotation::{
    cells_valid, ident_cells, rot_col_up, rot_col_down, rot_row_left, rot_row_right,
    stride_pos, on_path,
    lemma_ident_cells_valid, lemma_grid_index, lemma_row_bounds,
    lemma_stride_col_up, lemma_stride_col_down, lemma_stride_row_left, lemma_stride_row_right,
    lemma_rot_col_up_valid, lemma_rot_col_down_valid, lemma_rot_row_left_valid,
    lemma_rot_row_right_valid,
    lemma_col_down_up, lemma_col_up_down, lemma_row_right_left, lemma_row_left_right,
};
use crate::size::Size;
use crate::vec2::Vec2;

verus! {

// ---------------------------------------------------------------------------
// The mathematical state
// ---------------------------------------------------------------------------

/// The state of a board as the specifications see it.
#[verifier::ext_equal]
pub ghost struct BoardView {
    /// The tiles, row-major: index `y * width + x`.
    pub cells: Seq<usize>,
    /// Column of the selected cell.
    pub sel_x: int,
    /// Row of the selected cell.
    pub sel_y: int,
    pub width: int,
    pub height: int,
}

impl BoardView {
    /// Number of cells.
    pub open spec fn len(self) -> int {
        self.width * self.height
    }

    /// Well-formed state: dimensions at least 2 x 2, the cursor in bounds,
    /// and the cells exactly one permutation of `1..=width*height`.
    pub open spec fn wf(self) -> bool {
        &&& 2 <= self.width
        &&& 2 <= self.height
        &&& self.width * self.height <= usize::MAX
        &&& self.cells.len() == self.len()
        &&& 0 <= self.sel_x < self.width
        &&& 0 <= self.sel_y < self.height
        &&& cells_valid(self.cells)
    }

    /// Solved exactly when every adjacent pair of cells increases. On a
    /// permutation of `1..=len` this coincides with being the identity
    /// arrangement, and callers rely on that coincidence.
    pub open spec fn solved(self) -> bool {
        forall|i: int|
            0 <= i < self.cells.len() - 1 ==> #[trigger] self.cells[i] < self.cells[i + 1]
    }

    // --- cursor translation, wrapping at the edges ---

    /// Cursor one row up; from the top row it wraps to the bottom row.
    pub open spec fn cursor_up(self) -> BoardView {
        BoardView {
            sel_y: if self.sel_y == 0 { self.height - 1 } else { self.sel_y - 1 },
            ..self
        }
    }

    /// Cursor one row down; from the bottom row it wraps to the top row.
    pub open spec fn cursor_down(self) -> BoardView {
        BoardView {
            sel_y: if self.sel_y == self.height - 1 { 0 } else { self.sel_y + 1 },
            ..self
        }
    }

    /// Cursor one column left; from the first column it wraps to the last.
    pub open spec fn cursor_left(self) -> BoardView {
        BoardView {
            sel_x: if self.sel_x == 0 { self.width - 1 } else { self.sel_x - 1 },
            ..self
        }
    }

    /// Cursor one column right; from the last column it wraps to the first.
    pub open spec fn cursor_right(self) -> BoardView {
        BoardView {
            sel_x: if self.sel_x == self.width - 1 { 0 } else { self.sel_x + 1 },
            ..self
        }
    }

    // --- rotations of the line through the cursor ---

    /// The selected column rotated up.
    pub open spec fn rotated_up(self) -> BoardView {
        BoardView { cells: rot_col_up(self.cells, self.width, self.height, self.sel_x), ..self }
    }

    /// The selected column rotated down.
    pub open spec fn rotated_down(self) -> BoardView {
        BoardView { cells: rot_col_down(self.cells, self.width, self.height, self.sel_x), ..self }
    }

    /// The selected row rotated left.
    pub open spec fn rotated_left(self) -> BoardView {
        BoardView { cells: rot_row_left(self.cells, self.width, self.height, self.sel_y), ..self }
    }

    /// The selected row rotated right.
    pub open spec fn rotated_right(self) -> BoardView {
        BoardView { cells: rot_row_right(self.cells, self.width, self.height, self.sel_y), ..self }
    }
}

// ---------------------------------------------------------------------------
// The move codec
// ---------------------------------------------------------------------------

/// The eight move tokens: lowercase translates the cursor, uppercase also
/// rotates the line through it.
pub open spec fn is_token(c: char) -> bool {
    c == 'U' || c == 'u' || c == 'D' || c == 'd' || c == 'L' || c == 'l' || c == 'R' || c == 'r'
}

/// The token that undoes a token: the opposite direction in the same case.
pub open spec fn inverse_token(c: char) -> char {
    if c == 'U' {
        'D'
    } else if c == 'u' {
        'd'
    } else if c == 'D' {
        'U'
    } else if c == 'd' {
        'u'
    } else if c == 'L' {
        'R'
    } else if c == 'l' {
        'r'
    } else if c == 'R' {
        'L'
    } else if c == 'r' {
        'l'
    } else {
        c
    }
}

/// The effect of one token: an uppercase token rotates the line through the
/// cursor and then translates the cursor; a lowercase token only translates.
/// A character outside the token set leaves the state unchanged (the
/// executable functions reject it instead).
pub open spec fn spec_apply_move(v: BoardView, c: char) -> BoardView {
    if c == 'U' {
        v.rotated_up().cursor_up()
    } else if c == 'u' {
        v.cursor_up()
    } else if c == 'D' {
        v.rotated_down().cursor_down()
    } else if c == 'd' {
        v.cursor_down()
    } else if c == 'L' {
        v.rotated_left().cursor_left()
    } else if c == 'l' {
        v.cursor_left()
    } else if c == 'R' {
        v.rotated_right().cursor_right()
    } else if c == 'r' {
        v.cursor_right()
    } else {
        v
    }
}

/// The effect of undoing one token: the effect of its inverse token.
pub open spec fn spec_apply_rev_move(v: BoardView, c: char) -> BoardView {
    spec_apply_move(v, inverse_token(c))
}

/// The separators accepted inside a recorded move string.
pub open spec fn spec_is_sep(c: char) -> bool {
    c == ' ' || c == '\t' || c == '\n' || c == '\r'
}

/// Replaying a move string backwards from state `v`: the characters are
/// taken in reverse order, separators are skipped, and each token is undone
/// by its inverse move. The result is the state reached and whether every
/// non-separator character was a valid token; an invalid character stops
/// the replay where it stands.
pub open spec fn spec_replay(v: BoardView, cs: Seq<char>) -> (BoardView, bool)
    decreases cs.len(),
{
    if cs.len() == 0 {
        (v, true)
    } else {
        let c = cs.last();
        if spec_is_sep(c) {
            spec_replay(v, cs.drop_last())
        } else if is_token(c) {
            spec_replay(spec_apply_rev_move(v, c), cs.drop_last())
        } else {
            (v, false)
        }
    }
}

/// Applying a token sequence from the front, one move at a time.
pub open spec fn spec_apply_seq(v: BoardView, ts: Seq<char>) -> BoardView
    decreases ts.len(),
{
    if ts.len() == 0 {
        v
    } else {
        spec_apply_seq(spec_apply_move(v, ts.first()), ts.drop_first())
    }
}

// ---------------------------------------------------------------------------
// Laws of the codec
// ---------------------------------------------------------------------------

/// The inverse table maps tokens to tokens and is an involution: the
/// inverse of a token's inverse is the token itself.
pub proof fn lemma_inverse_token_involution(c: char)
    requires
        is_token(c),
    ensures
        is_token(inverse_token(c)),
        inverse_token(inverse_token(c)) == c,
{
}

/// One move keeps the state well-formed, whatever the character.
pub proof fn lemma_apply_move_wf(v: BoardView, c: char)
    requires
        v.wf(),
    ensures
        spec_apply_move(v, c).wf(),
        spec_apply_move(v, c).width == v.width,
        spec_apply_move(v, c).height == v.height,
{
    if c == 'U' || c == 'D' {
        if c == 'U' {
            lemma_rot_col_up_valid(v.cells, v.width, v.height, v.sel_x);
        } else {
            lemma_rot_col_down_valid(v.cells, v.width, v.height, v.sel_x);
        }
    } else if c == 'L' || c == 'R' {
        if c == 'L' {
            lemma_rot_row_left_valid(v.cells, v.width, v.height, v.sel_y);
        } else {
            lemma_rot_row_right_valid(v.cells, v.width, v.height, v.sel_y);
        }
    }
}

/// Undoing a move keeps the state well-formed.
pub proof fn lemma_apply_rev_move_wf(v: BoardView, c: char)
    requires
        v.wf(),
    ensures
        spec_apply_rev_move(v, c).wf(),
        spec_apply_rev_move(v, c).width == v.width,
        spec_apply_rev_move(v, c).height == v.height,
{
    lemma_apply_move_wf(v, inverse_token(c));
}

/// A move followed by its inverse restores the cells and the cursor
/// exactly: the codec's inverse table really inverts every token.
pub proof fn lemma_apply_then_inverse(v: BoardView, c: char)
    requires
        v.wf(),
        is_token(c),
    ensures
        spec_apply_rev_move(spec_apply_move(v, c), c) == v,
{
    if c == 'U' {
        lemma_col_down_up(v.cells, v.width, v.height, v.sel_x);
    } else if c == 'D' {
        lemma_col_up_down(v.cells, v.width, v.height, v.sel_x);
    } else if c == 'L' {
        lemma_row_right_left(v.cells, v.width, v.height, v.sel_y);
    } else if c == 'R' {
        lemma_row_left_right(v.cells, v.width, v.height, v.sel_y);
    }
    assert(spec_apply_rev_move(spec_apply_move(v, c), c) =~= v);
}

/// An inverse move followed by the move itself also restores the state.
pub proof fn lemma_inverse_then_apply(v: BoardView, c: char)
    requires
        v.wf(),
        is_token(c),
    ensures
        spec_apply_move(spec_apply_rev_move(v, c), c) == v,
{
    if c == 'U' {
        lemma_col_up_down(v.cells, v.width, v.height, v.sel_x);
    } else if c == 'D' {
        lemma_col_down_up(v.cells, v.width, v.height, v.sel_x);
    } else if c == 'L' {
        lemma_row_left_right(v.cells, v.width, v.height, v.sel_y);
    } else if c == 'R' {
        lemma_row_right_left(v.cells, v.width, v.height, v.sel_y);
    }
    assert(spec_apply_move(spec_apply_rev_move(v, c), c) =~= v);
}

/// A whole token sequence keeps the state well-formed.
pub proof fn lemma_apply_seq_wf(v: BoardView, ts: Seq<char>)
    requires
        v.wf(),
    ensures
        spec_apply_seq(v, ts).wf(),
        spec_apply_seq(v, ts).width == v.width,
        spec_apply_seq(v, ts).height == v.height,
    decreases ts.len(),
{
    if ts.len() > 0 {
        lemma_apply_move_wf(v, ts.first());
        lemma_apply_seq_wf(spec_apply_move(v, ts.first()), ts.drop_first());
    }
}

/// Applying a sequence is applying all but the last token, then the last.
proof fn lemma_apply_seq_snoc(v: BoardView, ts: Seq<char>)
    requires
        ts.len() > 0,
    ensures
        spec_apply_seq(v, ts) == spec_apply_move(spec_apply_seq(v, ts.drop_last()), ts.last()),
    decreases ts.len(),
{
    if ts.len() == 1 {
        assert(ts.drop_last() =~= Seq::<char>::empty());
        assert(ts.drop_first() =~= Seq::<char>::empty());
        assert(spec_apply_seq(v, ts.drop_last()) == v);
        assert(ts.first() == ts.last());
        assert(spec_apply_seq(spec_apply_move(v, ts.first()), ts.drop_first())
            == spec_apply_move(v, ts.first()));
        assert(spec_apply_seq(v, ts) == spec_apply_move(v, ts.first()));
    } else {
        let w = spec_apply_move(v, ts.first());
        lemma_apply_seq_snoc(w, ts.drop_first());
        assert(spec_apply_seq(v, ts) == spec_apply_seq(w, ts.drop_first()));
        assert(ts.drop_first().drop_last() =~= ts.drop_last().drop_first());
        assert(ts.drop_first().last() == ts.last());
        assert(spec_apply_seq(w, ts.drop_first()) == spec_apply_move(
            spec_apply_seq(w, ts.drop_last().drop_first()), ts.last()));
        assert(ts.drop_last().first() == ts.first());
        assert(ts.drop_last().len() > 0);
        assert(spec_apply_seq(v, ts.drop_last()) == spec_apply_seq(
            w, ts.drop_last().drop_first()));
    }
}

/// Round trip of the replay: applying any valid token sequence and then
/// replaying that sequence backwards with inverse moves restores the
/// starting state exactly.
pub proof fn lemma_replay_round_trip(v: BoardView, ts: Seq<char>)
    requires
        v.wf(),
        forall|i: int| 0 <= i < ts.len() ==> is_token(#[trigger] ts[i]),
    ensures
        spec_replay(spec_apply_seq(v, ts), ts) == (v, true),
    decreases ts.len(),
{
    if ts.len() == 0 {
    } else {
        let u = spec_apply_seq(v, ts.drop_last());
        let c = ts.last();
        lemma_apply_seq_snoc(v, ts);
        lemma_apply_seq_wf(v, ts.drop_last());
        lemma_apply_then_inverse(u, c);
        assert(!spec_is_sep(c));
        lemma_replay_round_trip(v, ts.drop_last());
    }
}

/// A recorded solution rebuilds its scramble: if applying the tokens `ts`
/// to a scrambled state `v` ends in the solved arrangement, then replaying
/// `ts` backwards from the solved arrangement with the end state's cursor
/// yields `v` again. The solved end state is exactly the identity
/// arrangement, so the replay may start from a fresh board.
pub proof fn lemma_reconstruct_from_solved(v: BoardView, ts: Seq<char>)
    requires
        v.wf(),
        forall|i: int| 0 <= i < ts.len() ==> is_token(#[trigger] ts[i]),
        spec_apply_seq(v, ts).solved(),
    ensures
        ({
            let e = spec_apply_seq(v, ts);
            spec_replay(BoardView { cells: ident_cells(e.cells.len()), ..e }, ts) == (v, true)
        }),
{
    let e = spec_apply_seq(v, ts);
    lemma_apply_seq_wf(v, ts);
    lemma_solved_is_identity(e);
    assert(BoardView { cells: ident_cells(e.cells.len()), ..e } =~= e);
    lemma_replay_round_trip(v, ts);
}

/// On a permutation of `1..=len`, the adjacent-pairwise-increasing check
/// pins the cells to the identity arrangement.
pub proof fn lemma_solved_is_identity(v: BoardView)
    requires
        v.wf(),
        v.solved(),
    ensures
        v.cells == ident_cells(v.cells.len()),
{
    let s = v.cells;
    let n = s.len() as int;
    assert forall|i: int| 0 <= i < n implies s[i] == i + 1 by {
        lemma_sorted_chain(s, 0, i);
        lemma_sorted_chain(s, i, n - 1);
    }
    assert(s =~= ident_cells(s.len()));
}

/// In a strictly increasing sequence, values grow at least as fast as the
/// indices.
proof fn lemma_sorted_chain(s: Seq<usize>, i: int, j: int)
    requires
        forall|k: int| 0 <= k < s.len() - 1 ==> #[trigger] s[k] < s[k + 1],
        0 <= i <= j < s.len(),
    ensures
        s[i] + (j - i) <= s[j],
    decreases j - i,
{
    if i < j {
        lemma_sorted_chain(s, i, j - 1);
    }
}

// ---------------------------------------------------------------------------
// The board
// ---------------------------------------------------------------------------

/// A puzzle board: the tiles, the selected cell, the fixed extent, and
/// whether the tile count calls for the compact rendering.
#[derive(Debug, Clone)]
pub struct Board {
    pub cells: Vec<usize>,
    pub selected: Vec2,
    pub size: Size,
    pub small: bool,
}

impl View for Board {
    type V = BoardView;

    open spec fn view(&self) -> BoardView {
        BoardView {
            cells: self.cells@,
            sel_x: self.selected.x as int,
            sel_y: self.selected.y as int,
            width: self.size.width as int,
            height: self.size.height as int,
        }
    }
}

impl Board {
    /// The board invariant: a well-formed state, with the rendering flag
    /// tied to the tile count.
    pub open spec fn inv(&self) -> bool {
        &&& self@.wf()
        &&& self.small == (self@.len() > 9)
    }

    /// Creates a new [`Board`] of the given extent, with the tiles in the
    /// solved arrangement and the cursor at the origin. The caller
    /// guarantees an extent of at least 2 x 2 (below that it reports
    /// [`Error::ConfigError`] instead of constructing a board).
    pub fn new(size: Size) -> (b: Self)
        requires
            2 <= size.width,
            2 <= size.height,
            size.width * size.height <= usize::MAX,
        ensures
            b.inv(),
            b@.width == size.width,
            b@.height == size.height,
            b@.sel_x == 0,
            b@.sel_y == 0,
            b@.cells == ident_cells((size.width * size.height) as nat),
            b@.solved(),
    {
        let len = size.width * size.height;
        proof {
            lemma_ident_cells_valid(len as nat);
        }
        Self {
            cells: ident_vec(len),
            selected: Vec2::new(0, 0),
            size,
            small: len > 9,
        }
    }

    /// Checks whether the board is solved: every adjacent pair of cells
    /// increases. Because the cells are always a permutation of `1..=len`,
    /// this adjacent-pairwise check coincides with the tiles being in
    /// ascending order from 1.
    pub fn solved(&mut self) -> (r: bool)
        requires
            old(self).inv(),
        ensures
            final(self)@ == old(self)@,
            final(self).small == old(self).small,
            final(self).inv(),
            r == final(self)@.solved(),
    {
        let len = self.size.width * self.size.height;
        proof {
            assert(len >= 4) by (nonlinear_arith)
                requires len == self@.width * self@.height, 2 <= self@.width, 2 <= self@.height;
        }
        let mut i: usize = 0;
        while i < len - 1
            invariant
                self == old(self),
                self.inv(),
                len == self@.len(),
                0 <= i <= len - 1,
                forall|k: int| 0 <= k < i ==> #[trigger] self.cells@[k] < self.cells@[k + 1],
            decreases len - 1 - i,
        {
            if self.cells[i] >= self.cells[i + 1] {
                return false;
            }
            i += 1;
        }
        true
    }

    /// Puts the tiles back in the solved arrangement; the cursor is
    /// untouched. The result is always solved.
    pub fn restart(&mut self)
        requires
            old(self).inv(),
        ensures
            final(self).inv(),
            final(self)@ == (BoardView {
                cells: ident_cells(old(self)@.len() as nat),
                ..old(self)@
            }),
            final(self)@.solved(),
            final(self).small == old(self).small,
    {
        let len = self.size.width * self.size.height;
        self.cells = ident_vec(len);
        proof {
            lemma_ident_cells_valid(len as nat);
            assert(final(self)@ =~= (BoardView {
                cells: ident_cells(old(self)@.len() as nat),
                ..old(self)@
            }));
        }
    }

    /// Sets the selected cell. The caller guarantees the coordinates are in
    /// bounds.
    pub fn select(&mut self, coords: Vec2)
        requires
            old(self).inv(),
            coords.x < old(self).size.width,
            coords.y < old(self).size.height,
        ensures
            final(self).inv(),
            final(self)@ == (BoardView {
                sel_x: coords.x as int,
                sel_y: coords.y as int,
                ..old(self)@
            }),
            final(self).small == old(self).small,
    {
        self.selected = coords;
        proof {
            assert(final(self)@ =~= (BoardView {
                sel_x: coords.x as int,
                sel_y: coords.y as int,
                ..old(self)@
            }));
        }
    }

    /// Moves the selected cell one row up, wrapping from the top row to the
    /// bottom row.
    pub fn up(&mut self)
        requires
            old(self).inv(),
        ensures
            final(self).inv(),
            final(self)@ == old(self)@.cursor_up(),
            final(self).small == old(self).small,
    {
        if self.selected.y == 0 {
            self.selected.y = self.size.height - 1;
        } else {
            self.selected.y = self.selected.y - 1;
        }
        proof {
            assert(final(self)@ =~= old(self)@.cursor_up());
        }
    }

    /// Moves the selected cell one row down, wrapping from the bottom row
    /// to the top row.
    pub fn down(&mut self)
        requires
            old(self).inv(),
        ensures
            final(self).inv(),
            final(self)@ == old(self)@.cursor_down(),
            final(self).small == old(self).small,
    {
        self.selected.y = (self.selected.y + 1) % self.size.height;
        proof {
            if old(self).selected.y + 1 == self.size.height {
                vstd::arithmetic::div_mod::lemma_mod_self_0(self.size.height as int);
            } else {
                vstd::arithmetic::div_mod::lemma_small_mod(
                    (old(self).selected.y + 1) as nat,
                    self.size.height as nat,
                );
            }
            assert(final(self)@ =~= old(self)@.cursor_down());
        }
    }

    /// Moves the selected cell one column left, wrapping from the first
    /// column to the last.
    pub fn left(&mut self)
        requires
            old(self).inv(),
        ensures
            final(self).inv(),
            final(self)@ == old(self)@.cursor_left(),
            final(self).small == old(self).small,
    {
        if self.selected.x == 0 {
            self.selected.x = self.size.width - 1;
        } else {
            self.selected.x = self.selected.x - 1;
        }
        proof {
            assert(final(self)@ =~= old(self)@.cursor_left());
        }
    }

    /// Moves the selected cell one column right, wrapping from the last
    /// column to the first.
    pub fn right(&mut self)
        requires
            old(self).inv(),
        ensures
            final(self).inv(),
            final(self)@ == old(self)@.cursor_right(),
            final(self).small == old(self).small,
    {
        self.selected.x = (self.selected.x + 1) % self.size.width;
        proof {
            if old(self).selected.x + 1 == self.size.width {
                vstd::arithmetic::div_mod::lemma_mod_self_0(self.size.width as int);
            } else {
                vstd::arithmetic::div_mod::lemma_small_mod(
                    (old(self).selected.x + 1) as nat,
                    self.size.width as nat,
                );
            }
            assert(final(self)@ =~= old(self)@.cursor_right());
        }
    }
}

impl Board {
    /// Cyclically shifts the `count` cells visited from `start` by striding
    /// `stride` indices at a time, forwards or backwards: the tile at
    /// `start` moves to the far end of the walk and every other visited
    /// tile shifts back by one stride. Choosing the walk picks the row or
    /// column and the direction of the rotation.
    fn rotate(&mut self, start: usize, count: usize, stride: usize, back: bool)
        requires
            1 <= count,
            1 <= stride,
            start < old(self).cells.len(),
            !back ==> start + (count - 1) * stride < old(self).cells.len(),
            back ==> (count - 1) * stride <= start,
        ensures
            final(self).cells@.len() == old(self).cells@.len(),
            forall|k: int|
                0 <= k < count - 1 ==> final(self).cells@[#[trigger] stride_pos(
                    start as int, stride as int, back, k)]
                    == old(self).cells@[stride_pos(start as int, stride as int, back, k + 1)],
            final(self).cells@[stride_pos(start as int, stride as int, back, count - 1)]
                == old(self).cells@[start as int],
            forall|i: int|
                0 <= i < final(self).cells@.len()
                    && !on_path(start as int, stride as int, back, count as int, i)
                    ==> #[trigger] final(self).cells@[i] == old(self).cells@[i],
            final(self).selected == old(self).selected,
            final(self).size == old(self).size,
            final(self).small == old(self).small,
    {
        let n = self.cells.len();
        let ghost s0 = self.cells@;
        proof {
            lemma_stride_in_range(
                start as int, stride as int, back, count as int, s0.len() as int);
        }
        let first = self.cells[start];
        let mut cur = start;
        let mut j: usize = 1;
        while j < count
            invariant
                1 <= j <= count,
                1 <= stride,
                s0.len() == n,
                start < s0.len(),
                forall|k: int|
                    0 <= k < count ==> 0 <= #[trigger] stride_pos(
                        start as int, stride as int, back, k) < s0.len(),
                !back ==> start + (count - 1) * stride < s0.len(),
                back ==> (count - 1) * stride <= start,
                self.cells@.len() == s0.len(),
                s0 == old(self).cells@,
                first == s0[start as int],
                cur == stride_pos(start as int, stride as int, back, j - 1),
                0 <= cur < s0.len(),
                forall|k: int|
                    0 <= k < j - 1 ==> self.cells@[#[trigger] stride_pos(
                        start as int, stride as int, back, k)]
                        == s0[stride_pos(start as int, stride as int, back, k + 1)],
                forall|k: int|
                    j - 1 <= k < count ==> self.cells@[#[trigger] stride_pos(
                        start as int, stride as int, back, k)]
                        == s0[stride_pos(start as int, stride as int, back, k)],
                forall|i: int|
                    0 <= i < s0.len()
                        && !on_path(start as int, stride as int, back, count as int, i)
                        ==> #[trigger] self.cells@[i] == s0[i],
                self.selected == old(self).selected,
                self.size == old(self).size,
                self.small == old(self).small,
            decreases count - j,
        {
            proof {
                lemma_stride_bounds(start as int, stride as int, back, count as int, j as int);
            }
            let next = if back { cur - stride } else { cur + stride };
            let v = self.cells[next];
            proof {
                assert(next == stride_pos(start as int, stride as int, back, j as int));
                assert(v == s0[stride_pos(start as int, stride as int, back, j as int)]);
                assert forall|k: int| 0 <= k < count && k != j - 1 implies
                    stride_pos(start as int, stride as int, back, k) != cur by {
                    lemma_stride_distinct(start as int, stride as int, back, k, j - 1);
                }
                assert(cur == stride_pos(start as int, stride as int, back, j - 1));
                assert(on_path(start as int, stride as int, back, count as int, cur as int));
            }
            self.cells[cur] = v;
            cur = next;
            j = j + 1;
        }
        proof {
            assert(cur == stride_pos(start as int, stride as int, back, count - 1));
            assert forall|k: int| 0 <= k < count && k != count - 1 implies
                stride_pos(start as int, stride as int, back, k) != cur by {
                lemma_stride_distinct(start as int, stride as int, back, k, count - 1);
            }
            assert(on_path(start as int, stride as int, back, count as int, cur as int));
        }
        self.cells[cur] = first;
    }

    /// Rotates column `x` one step up or down by walking it with the
    /// stride of one row.
    fn rotate_col_at(&mut self, x: usize, down: bool)
        requires
            old(self).inv(),
            x < old(self).size.width,
        ensures
            final(self).inv(),
            final(self)@ == (BoardView {
                cells: if down {
                    rot_col_down(old(self)@.cells, old(self)@.width, old(self)@.height, x as int)
                } else {
                    rot_col_up(old(self)@.cells, old(self)@.width, old(self)@.height, x as int)
                },
                ..old(self)@
            }),
            final(self).small == old(self).small,
    {
        let w = self.size.width;
        let h = self.size.height;
        let ghost s0 = self.cells@;
        proof {
            lemma_grid_index(w as int, h as int, x as int, h - 1);
            assert((h - 1) * (w as int) == (w as int) * (h - 1)) by (nonlinear_arith);
        }
        if down {
            let start = x + w * (h - 1);
            self.rotate(start, h, w, true);
            proof {
                lemma_stride_col_down(s0, self.cells@, w as int, h as int, x as int);
                lemma_rot_col_down_valid(s0, w as int, h as int, x as int);
                assert(final(self)@ =~= (BoardView {
                    cells: rot_col_down(s0, w as int, h as int, x as int),
                    ..old(self)@
                }));
            }
        } else {
            self.rotate(x, h, w, false);
            proof {
                lemma_stride_col_up(s0, self.cells@, w as int, h as int, x as int);
                lemma_rot_col_up_valid(s0, w as int, h as int, x as int);
                assert(final(self)@ =~= (BoardView {
                    cells: rot_col_up(s0, w as int, h as int, x as int),
                    ..old(self)@
                }));
            }
        }
    }

    /// Rotates row `y` left or right.
    fn rotate_row_at(&mut self, y: usize, right: bool)
        requires
            old(self).inv(),
            y < old(self).size.height,
        ensures
            final(self).inv(),
            final(self)@ == (BoardView {
                cells: if right {
                    rot_row_right(old(self)@.cells, old(self)@.width, old(self)@.height, y as int)
                } else {
                    rot_row_left(old(self)@.cells, old(self)@.width, old(self)@.height, y as int)
                },
                ..old(self)@
            }),
            final(self).small == old(self).small,
    {
        let w = self.size.width;
        let h = self.size.height;
        let ghost s0 = self.cells@;
        proof {
            lemma_row_bounds(w as int, h as int, y as int);
        }
        let start = y * w;
        if right {
            self.rotate(start + w - 1, w, 1, true);
            proof {
                lemma_stride_row_right(s0, self.cells@, w as int, h as int, y as int);
                lemma_rot_row_right_valid(s0, w as int, h as int, y as int);
                assert(final(self)@ =~= (BoardView {
                    cells: rot_row_right(s0, w as int, h as int, y as int),
                    ..old(self)@
                }));
            }
        } else {
            self.rotate(start, w, 1, false);
            proof {
                lemma_stride_row_left(s0, self.cells@, w as int, h as int, y as int);
                lemma_rot_row_left_valid(s0, w as int, h as int, y as int);
                assert(final(self)@ =~= (BoardView {
                    cells: rot_row_left(s0, w as int, h as int, y as int),
                    ..old(self)@
                }));
            }
        }
    }

    /// Rotates the selected column up.
    pub fn move_up(&mut self)
        requires
            old(self).inv(),
        ensures
            final(self).inv(),
            final(self)@ == old(self)@.rotated_up(),
            final(self).small == old(self).small,
    {
        let x = self.selected.x;
        self.rotate_col_at(x, false);
    }

    /// Rotates the selected column down.
    pub fn move_down(&mut self)
        requires
            old(self).inv(),
        ensures
            final(self).inv(),
            final(self)@ == old(self)@.rotated_down(),
            final(self).small == old(self).small,
    {
        let x = self.selected.x;
        self.rotate_col_at(x, true);
    }

    /// Rotates the selected row left.
    pub fn move_left(&mut self)
        requires
            old(self).inv(),
        ensures
            final(self).inv(),
            final(self)@ == old(self)@.rotated_left(),
            final(self).small == old(self).small,
    {
        let y = self.selected.y;
        self.rotate_row_at(y, false);
    }

    /// Rotates the selected row right.
    pub fn move_right(&mut self)
        requires
            old(self).inv(),
        ensures
            final(self).inv(),
            final(self)@ == old(self)@.rotated_right(),
            final(self).small == old(self).small,
    {
        let y = self.selected.y;
        self.rotate_row_at(y, true);
    }
}

impl Board {
    /// Applies one move token: an uppercase token rotates the line through
    /// the selected cell and then moves it, a lowercase token only moves
    /// it. Any other character is rejected with [`Error::InvalidToken`]
    /// and leaves the board untouched.
    pub fn apply_move(&mut self, m: char) -> (r: Result<(), Error>)
        requires
            old(self).inv(),
        ensures
            final(self).inv(),
            final(self).small == old(self).small,
            final(self)@ == spec_apply_move(old(self)@, m),
            r is Ok <==> is_token(m),
            r is Err ==> r->Err_0 == Error::InvalidToken,
    {
        match m {
            'U' => {
                self.move_up();
                self.up();
            }
            'u' => self.up(),
            'R' => {
                self.move_right();
                self.right();
            }
            'r' => self.right(),
            'L' => {
                self.move_left();
                self.left();
            }
            'l' => self.left(),
            'D' => {
                self.move_down();
                self.down();
            }
            'd' => self.down(),
            _ => {
                return Err(Error::InvalidToken);
            }
        }
        Ok(())
    }

    /// Undoes one move token by applying its inverse move: the opposite
    /// rotation and the opposite cursor step. Any character outside the
    /// token set is rejected with [`Error::InvalidToken`] and leaves the
    /// board untouched.
    pub fn apply_rev_move(&mut self, m: char) -> (r: Result<(), Error>)
        requires
            old(self).inv(),
        ensures
            final(self).inv(),
            final(self).small == old(self).small,
            final(self)@ == spec_apply_rev_move(old(self)@, m),
            r is Ok <==> is_token(m),
            r is Err ==> r->Err_0 == Error::InvalidToken,
    {
        match m {
            'U' => {
                self.move_down();
                self.down();
            }
            'u' => self.down(),
            'R' => {
                self.move_left();
                self.left();
            }
            'r' => self.left(),
            'L' => {
                self.move_right();
                self.right();
            }
            'l' => self.right(),
            'D' => {
                self.move_up();
                self.up();
            }
            'd' => self.up(),
            _ => {
                return Err(Error::InvalidToken);
            }
        }
        Ok(())
    }

    /// Rebuilds the scramble that a recorded solution solved: resets the
    /// tiles to the solved arrangement, puts the cursor at the recorded
    /// end position, and replays the move string backwards, undoing each
    /// token. Whitespace separates tokens and is skipped; any other
    /// character outside the token set aborts with
    /// [`Error::InvalidToken`], leaving the replay where it stopped.
    pub fn apply_solution(&mut self, moves: &str, end: Vec2) -> (r: Result<(), Error>)
        requires
            old(self).inv(),
            end.x < old(self).size.width,
            end.y < old(self).size.height,
        ensures
            final(self).inv(),
            final(self).small == old(self).small,
            ({
                let rp = spec_replay(replay_start(old(self)@, end), moves@);
                &&& final(self)@ == rp.0
                &&& (r is Ok <==> rp.1)
            }),
            r is Err ==> r->Err_0 == Error::InvalidToken,
    {
        self.restart();
        self.select(end);
        let ghost v0 = self@;
        proof {
            assert(v0 =~= replay_start(old(self)@, end));
        }
        let n = moves.unicode_len();
        let mut j: usize = n;
        proof {
            assert(moves@.subrange(0, n as int) =~= moves@);
        }
        while j > 0
            invariant
                self.inv(),
                self.small == old(self).small,
                j <= n,
                n == moves@.len(),
                v0 == replay_start(old(self)@, end),
                spec_replay(v0, moves@) == spec_replay(self@, moves@.subrange(0, j as int)),
            decreases j,
        {
            let c = moves.get_char(j - 1);
            proof {
                let pre = moves@.subrange(0, j as int);
                assert(pre.last() == c);
                assert(pre.drop_last() =~= moves@.subrange(0, j as int - 1));
            }
            if !is_sep_char(c) {
                let ghost prev = self@;
                let res = self.apply_rev_move(c);
                if res.is_err() {
                    proof {
                        let pre = moves@.subrange(0, j as int);
                        assert(!is_token(c));
                        assert(inverse_token(c) == c);
                        assert(spec_apply_rev_move(prev, c) == prev);
                        assert(self@ == prev);
                        assert(spec_replay(prev, pre) == (prev, false));
                    }
                    return Err(Error::InvalidToken);
                }
            }
            j = j - 1;
        }
        proof {
            assert(moves@.subrange(0, 0) =~= Seq::<char>::empty());
        }
        Ok(())
    }

    /// Scrambles the board: mixes it with a large number of random
    /// rotations, then, while the result is still solved, reshuffles the
    /// whole array; a reshuffle is expected to leave the board unsolved at
    /// once, and after a bounded number of attempts a single row rotation
    /// of the (then necessarily solved, hence identity) arrangement
    /// guarantees it. A scramble therefore never returns a solved board.
    pub fn scramble(&mut self)
        requires
            old(self).inv(),
        ensures
            final(self).inv(),
            final(self).small == old(self).small,
            !final(self)@.solved(),
            final(self)@.width == old(self)@.width,
            final(self)@.height == old(self)@.height,
            final(self)@.sel_x == old(self)@.sel_x,
            final(self)@.sel_y == old(self)@.sel_y,
    {
        self.shuffle();
        let mut tries: usize = 0;
        let mut still_solved = self.solved();
        while still_solved && tries < 64
            invariant
                self.inv(),
                self.small == old(self).small,
                self@.width == old(self)@.width,
                self@.height == old(self)@.height,
                self@.sel_x == old(self)@.sel_x,
                self@.sel_y == old(self)@.sel_y,
                still_solved == self@.solved(),
                tries <= 64,
            decreases 64 - tries,
        {
            let ghost before = self.cells@;
            shuffle_cells(&mut self.cells);
            proof {
                crate::rotation::lemma_same_tiles_valid(before, self.cells@);
            }
            still_solved = self.solved();
            tries = tries + 1;
        }
        if still_solved {
            let ghost w = self@.width;
            let ghost h = self@.height;
            proof {
                lemma_solved_is_identity(self@);
            }
            self.rotate_row_at(0, false);
            proof {
                lemma_top_row_rotation_unsolves(w, h);
                assert(self@.cells[w - 2] == w);
                assert(self@.cells[w - 1] == 1);
                assert(!self@.solved());
            }
        }
    }

    /// Mixes the board with `(width * height)^2` rotations of random lines
    /// in random directions, the count saturating at the machine limit.
    fn shuffle(&mut self)
        requires
            old(self).inv(),
        ensures
            final(self).inv(),
            final(self).small == old(self).small,
            final(self)@.width == old(self)@.width,
            final(self)@.height == old(self)@.height,
            final(self)@.sel_x == old(self)@.sel_x,
            final(self)@.sel_y == old(self)@.sel_y,
    {
        let w = self.size.width;
        let h = self.size.height;
        let area = w * h;
        let lim = match area.checked_mul(area) {
            Some(l) => l,
            None => usize::MAX,
        };
        let mut i: usize = 0;
        while i < lim
            invariant
                self.inv(),
                self.small == old(self).small,
                self@.width == old(self)@.width,
                self@.height == old(self)@.height,
                self@.sel_x == old(self)@.sel_x,
                self@.sel_y == old(self)@.sel_y,
                w == self.size.width,
                h == self.size.height,
            decreases lim - i,
        {
            let sx = rand_below(w);
            let sy = rand_below(h);
            match rand_below(4) {
                0 => self.rotate_col_at(sx, false),
                1 => self.rotate_col_at(sx, true),
                2 => self.rotate_row_at(sy, false),
                _ => self.rotate_row_at(sy, true),
            }
            i = i + 1;
        }
    }
}

impl Board {
    /// The colour of a tile, as red, green and blue: a gradient over the
    /// board, keyed by where the tile belongs when solved.
    pub fn cell_color(&self, cell: usize) -> (rgb: (u8, u8, u8))
        requires
            self.inv(),
            1 <= cell <= self@.len(),
        ensures
            rgb.0 == 200 - spec_color_x(self@, cell as int),
            rgb.1 == spec_color_y(self@, cell as int),
            rgb.2 == spec_color_x(self@, cell as int),
    {
        let w = self.size.width as u128;
        let h = self.size.height as u128;
        let c = (cell - 1) as u128;
        let x = (c % w) * 200 / (w - 1);
        let y = (c / w) * 200 / (h - 1);
        proof {
            lemma_color_bounds(self@, cell as int);
        }
        ((200 - x) as u8, y as u8, x as u8)
    }
}

/// The horizontal colour component of a tile: its solved column, scaled
/// to `0..=200`.
pub open spec fn spec_color_x(v: BoardView, cell: int) -> int {
    ((cell - 1) % v.width) * 200 / (v.width - 1)
}

/// The vertical colour component of a tile: its solved row, scaled to
/// `0..=200`.
pub open spec fn spec_color_y(v: BoardView, cell: int) -> int {
    ((cell - 1) / v.width) * 200 / (v.height - 1)
}

/// Both colour components stay within `0..=200`.
proof fn lemma_color_bounds(v: BoardView, cell: int)
    requires
        v.wf(),
        1 <= cell <= v.len(),
    ensures
        0 <= spec_color_x(v, cell) <= 200,
        0 <= spec_color_y(v, cell) <= 200,
{
    let w = v.width;
    let h = v.height;
    let c = cell - 1;
    vstd::arithmetic::div_mod::lemma_mod_division_less_than_divisor(c, w);
    assert((c % w) * 200 <= (w - 1) * 200) by (nonlinear_arith)
        requires 0 <= c % w <= w - 1;
    assert(0 <= (c % w) * 200) by (nonlinear_arith)
        requires 0 <= c % w;
    vstd::arithmetic::div_mod::lemma_div_is_ordered((c % w) * 200, (w - 1) * 200, w - 1);
    vstd::arithmetic::div_mod::lemma_div_by_multiple(200, w - 1);
    vstd::arithmetic::div_mod::lemma_div_pos_is_pos((c % w) * 200, w - 1);

    assert(c < w * h);
    vstd::arithmetic::div_mod::lemma_multiply_divide_lt(c, w, h);
    assert(0 <= c / w <= h - 1) by {
        vstd::arithmetic::div_mod::lemma_div_pos_is_pos(c, w);
    }
    assert((c / w) * 200 <= (h - 1) * 200) by (nonlinear_arith)
        requires 0 <= c / w <= h - 1;
    assert(0 <= (c / w) * 200) by (nonlinear_arith)
        requires 0 <= c / w;
    vstd::arithmetic::div_mod::lemma_div_is_ordered((c / w) * 200, (h - 1) * 200, h - 1);
    vstd::arithmetic::div_mod::lemma_div_by_multiple(200, h - 1);
    vstd::arithmetic::div_mod::lemma_div_pos_is_pos((c / w) * 200, h - 1);
}

/// The state a replay starts from: the solved arrangement of the same
/// extent, with the cursor at the recorded end position.
pub open spec fn replay_start(v: BoardView, end: Vec2) -> BoardView {
    BoardView {
        cells: ident_cells(v.len() as nat),
        sel_x: end.x as int,
        sel_y: end.y as int,
        width: v.width,
        height: v.height,
    }
}

/// Whether a character separates tokens in a recorded move string.
pub fn is_sep_char(c: char) -> (r: bool)
    ensures
        r == spec_is_sep(c),
{
    c == ' ' || c == '\t' || c == '\n' || c == '\r'
}

/// Finds the first move token at or after `from` in a recorded move
/// string: its character and its index, with only separators before it.
pub fn next_token_at(moves: &str, from: usize) -> (r: Option<(char, usize)>)
    ensures
        r is Some <==> exists|i: int|
            from <= i < moves@.len() && !spec_is_sep(#[trigger] moves@[i]),
        r matches Some((c, i)) ==> from <= i < moves@.len() && c == moves@[i as int]
            && !spec_is_sep(c)
            && forall|k: int| from <= k < i ==> spec_is_sep(#[trigger] moves@[k]),
{
    let n = moves.unicode_len();
    let mut i = from;
    while i < n
        invariant
            from <= i,
            n == moves@.len(),
            forall|k: int| from <= k < i && k < n ==> spec_is_sep(#[trigger] moves@[k]),
        decreases n - i,
    {
        let c = moves.get_char(i);
        if !is_sep_char(c) {
            return Some((c, i));
        }
        i = i + 1;
    }
    None
}

/// Finds the last move token strictly before `before` in a recorded move
/// string: its character and its index, with only separators after it up
/// to `before`.
pub fn prev_token_before(moves: &str, before: usize) -> (r: Option<(char, usize)>)
    requires
        before <= moves@.len(),
    ensures
        r is Some <==> exists|i: int| 0 <= i < before && !spec_is_sep(#[trigger] moves@[i]),
        r matches Some((c, i)) ==> i < before && c == moves@[i as int] && !spec_is_sep(c)
            && forall|k: int| i < k < before ==> spec_is_sep(#[trigger] moves@[k]),
{
    let mut i = before;
    while i > 0
        invariant
            i <= before <= moves@.len(),
            forall|k: int| i <= k < before ==> spec_is_sep(#[trigger] moves@[k]),
        decreases i,
    {
        let c = moves.get_char(i - 1);
        if !is_sep_char(c) {
            return Some((c, i - 1));
        }
        i = i - 1;
    }
    None
}

/// Rotating the top row of the identity arrangement leaves the board
/// unsolved: the last two cells of that row come out decreasing.
proof fn lemma_top_row_rotation_unsolves(w: int, h: int)
    requires
        2 <= w,
        2 <= h,
        w * h <= usize::MAX,
    ensures
        ({
            let t = rot_row_left(ident_cells((w * h) as nat), w, h, 0);
            &&& t.len() == w * h
            &&& w < w * h
            &&& t[w - 2] == w
            &&& t[w - 1] == 1
        }),
{
    let s = ident_cells((w * h) as nat);
    let t = rot_row_left(s, w, h, 0);
    lemma_row_bounds(w, h, 0);
    assert(w < w * h) by (nonlinear_arith)
        requires 2 <= w, 2 <= h;
    assert(t[w - 2] == s.subrange(0, w)[w - 1]);
    assert(t[w - 1] == s.subrange(0, w)[0]);
    assert(t[w - 2] == w);
    assert(t[w - 1] == 1);
}

/// Walks of positive stride stay inside the array and visit each index at
/// most once.
proof fn lemma_stride_bounds(start: int, stride: int, back: bool, count: int, j: int)
    requires
        1 <= stride,
        0 <= start,
        1 <= j < count,
    ensures
        !back ==> stride_pos(start, stride, back, j)
            == stride_pos(start, stride, back, j - 1) + stride,
        back ==> stride_pos(start, stride, back, j)
            == stride_pos(start, stride, back, j - 1) - stride,
        !back ==> stride_pos(start, stride, back, j) <= start + (count - 1) * stride,
        back ==> start - (count - 1) * stride <= stride_pos(start, stride, back, j) <= start,
{
    assert((j - 1) * stride + stride == j * stride) by (nonlinear_arith);
    assert(j * stride <= (count - 1) * stride) by (nonlinear_arith)
        requires 1 <= stride, j < count;
    assert(0 <= j * stride) by (nonlinear_arith)
        requires 1 <= stride, 0 <= j;
}

/// Every step of a bounded walk lands inside the array.
proof fn lemma_stride_in_range(start: int, stride: int, back: bool, count: int, len: int)
    requires
        1 <= stride,
        0 <= start < len,
        1 <= count,
        !back ==> start + (count - 1) * stride < len,
        back ==> (count - 1) * stride <= start,
    ensures
        forall|k: int|
            0 <= k < count ==> 0 <= #[trigger] stride_pos(start, stride, back, k) < len,
{
    assert forall|k: int| 0 <= k < count implies 0 <= #[trigger] stride_pos(start, stride, back, k)
        < len by {
        assert(0 <= k * stride <= (count - 1) * stride) by (nonlinear_arith)
            requires 1 <= stride, 0 <= k <= count - 1;
    }
}

/// Two different steps of a walk land on different indices.
proof fn lemma_stride_distinct(start: int, stride: int, back: bool, k1: int, k2: int)
    requires
        1 <= stride,
        0 <= k1,
        0 <= k2,
        k1 != k2,
    ensures
        stride_pos(start, stride, back, k1) != stride_pos(start, stride, back, k2),
{
    assert(k1 * stride != k2 * stride) by (nonlinear_arith)
        requires 1 <= stride, k1 != k2;
}

/// The solved arrangement of `len` tiles: tile `i + 1` at index `i`.
fn ident_vec(len: usize) -> (v: Vec<usize>)
    ensures
        v@ == ident_cells(len as nat),
{
    let mut v: Vec<usize> = Vec::new();
    let mut i: usize = 0;
    while i < len
        invariant
            0 <= i <= len,
            v@.len() == i,
            forall|k: int| 0 <= k < i ==> #[trigger] v@[k] == k + 1,
        decreases len - i,
    {
        v.push(i + 1);
        i += 1;
    }
    proof {
        assert(v@ =~= ident_cells(len as nat));
    }
    v
}

} // verus!
