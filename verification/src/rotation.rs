//! Cyclic rotation of one line (a row or a column) of the flat cell array.
//!
//! The board stores its tiles row-major in one `Vec<usize>`; index
//! `y * width + x` holds the tile at column `x`, row `y`. A rotation takes
//! the line through one cell and shifts every tile on it by one place,
//! cyclically. This module defines the mathematical form of those
//! rotations and proves the facts the board relies on: each rotation is a
//! bijective rearrangement (so the cells stay a permutation of
//! `1..=width*height`), opposite rotations of the same line cancel, and
//! rotating a line as many times as it is long restores it.

use vstd::prelude::*;
use vstd::arithmetic::div_mod::{
    lemma_fundamental_div_mod, lemma_fundamental_div_mod_converse, lemma_mod_division_less_than_divisor,
    lemma_small_mod, lemma_mod_multiples_vanish,
};

verus! {

/// The cells hold each tile number `1..=len` exactly once.
pub open spec fn cells_valid(s: Seq<usize>) -> bool {
    &&& forall|i: int| 0 <= i < s.len() ==> 1 <= #[trigger] s[i] <= s.len()
    &&& forall|i: int, j: int|
        0 <= i < s.len() && 0 <= j < s.len() && i != j ==> s[i] != s[j]
}

/// The identity arrangement: tile `i + 1` sits at index `i`.
pub open spec fn ident_cells(len: nat) -> Seq<usize> {
    Seq::new(len, |i: int| (i + 1) as usize)
}

pub proof fn lemma_ident_cells_valid(len: nat)
    requires
        len <= usize::MAX,
    ensures
        cells_valid(ident_cells(len)),
{
}

// ---------------------------------------------------------------------------
// Lines
// ---------------------------------------------------------------------------

/// One forward cyclic step of a line: the first element moves to the far end
/// and every other element shifts back one place.
pub open spec fn line_fwd(l: Seq<usize>) -> Seq<usize> {
    if l.len() == 0 {
        l
    } else {
        l.subrange(1, l.len() as int).push(l[0])
    }
}

/// One backward cyclic step of a line: the last element moves to the front.
pub open spec fn line_bwd(l: Seq<usize>) -> Seq<usize> {
    if l.len() == 0 {
        l
    } else {
        seq![l.last()] + l.subrange(0, l.len() - 1)
    }
}

pub proof fn lemma_line_fwd_index(l: Seq<usize>, i: int)
    requires
        0 <= i < l.len(),
    ensures
        line_fwd(l).len() == l.len(),
        line_fwd(l)[i] == if i < l.len() - 1 { l[i + 1] } else { l[0] },
{
}

pub proof fn lemma_line_bwd_index(l: Seq<usize>, i: int)
    requires
        0 <= i < l.len(),
    ensures
        line_bwd(l).len() == l.len(),
        line_bwd(l)[i] == if i == 0 { l[l.len() - 1] } else { l[i - 1] },
{
}

/// Opposite steps cancel: backward after forward restores the line.
pub proof fn lemma_line_bwd_fwd(l: Seq<usize>)
    ensures
        line_bwd(line_fwd(l)) == l,
{
    assert(line_bwd(line_fwd(l)) =~= l);
}

/// Opposite steps cancel: forward after backward restores the line.
pub proof fn lemma_line_fwd_bwd(l: Seq<usize>)
    ensures
        line_fwd(line_bwd(l)) == l,
{
    assert(line_fwd(line_bwd(l)) =~= l);
}

/// A cyclic step maps distinct elements to distinct elements.
pub proof fn lemma_line_fwd_distinct(l: Seq<usize>)
    requires
        forall|i: int, j: int|
            0 <= i < l.len() && 0 <= j < l.len() && i != j ==> l[i] != l[j],
    ensures
        forall|i: int, j: int|
            0 <= i < line_fwd(l).len() && 0 <= j < line_fwd(l).len() && i != j
                ==> line_fwd(l)[i] != line_fwd(l)[j],
{
}

pub proof fn lemma_line_bwd_distinct(l: Seq<usize>)
    requires
        forall|i: int, j: int|
            0 <= i < l.len() && 0 <= j < l.len() && i != j ==> l[i] != l[j],
    ensures
        forall|i: int, j: int|
            0 <= i < line_bwd(l).len() && 0 <= j < line_bwd(l).len() && i != j
                ==> line_bwd(l)[i] != line_bwd(l)[j],
{
}

/// `n` forward steps in a row.
pub open spec fn line_fwd_n(l: Seq<usize>, n: nat) -> Seq<usize>
    decreases n,
{
    if n == 0 {
        l
    } else {
        line_fwd(line_fwd_n(l, (n - 1) as nat))
    }
}

/// After `n` forward steps the element at `i` is the one that started at
/// `(i + n) % len`.
proof fn lemma_line_fwd_n_index(l: Seq<usize>, n: nat)
    requires
        l.len() > 0,
    ensures
        line_fwd_n(l, n).len() == l.len(),
        forall|i: int|
            0 <= i < l.len() ==> line_fwd_n(l, n)[i] == l[(i + n) % (l.len() as int)],
    decreases n,
{
    let len = l.len() as int;
    if n == 0 {
        assert forall|i: int| 0 <= i < len implies line_fwd_n(l, n)[i] == l[(i + n) % len] by {
            lemma_small_mod(i as nat, l.len());
        }
    } else {
        let m = (n - 1) as nat;
        lemma_line_fwd_n_index(l, m);
        let prev = line_fwd_n(l, m);
        assert forall|i: int| 0 <= i < len implies line_fwd_n(l, n)[i] == l[(i + n) % len] by {
            lemma_line_fwd_index(prev, i);
            if i < len - 1 {
                assert(prev[i + 1] == l[(i + 1 + m) % len]);
            } else {
                assert(prev[0] == l[(0 + m as int) % len]);
                // (len + m) % len == m % len
                lemma_mod_multiples_vanish(1, m as int, len);
            }
        }
    }
}

/// Rotating a line of length `k` exactly `k` times returns it to its
/// original arrangement: each cyclic step is a true cyclic permutation.
pub proof fn lemma_line_cycle(l: Seq<usize>)
    ensures
        line_fwd_n(l, l.len()) == l,
{
    if l.len() == 0 {
    } else {
        let len = l.len() as int;
        lemma_line_fwd_n_index(l, l.len());
        assert forall|i: int| 0 <= i < len implies line_fwd_n(l, l.len())[i] == l[i] by {
            lemma_mod_multiples_vanish(1, i, len);
            lemma_small_mod(i as nat, l.len());
        }
        assert(line_fwd_n(l, l.len()) =~= l);
    }
}

/// `n` backward steps in a row.
pub open spec fn line_bwd_n(l: Seq<usize>, n: nat) -> Seq<usize>
    decreases n,
{
    if n == 0 {
        l
    } else {
        line_bwd(line_bwd_n(l, (n - 1) as nat))
    }
}

/// A forward walk can be peeled from the front as well as from the back.
proof fn lemma_line_fwd_n_front(l: Seq<usize>, n: nat)
    requires
        n >= 1,
    ensures
        line_fwd_n(l, n) == line_fwd_n(line_fwd(l), (n - 1) as nat),
    decreases n,
{
    if n == 1 {
        assert(line_fwd_n(l, 1) == line_fwd(line_fwd_n(l, 0)));
        assert(line_fwd_n(line_fwd(l), 0) == line_fwd(l));
    } else {
        lemma_line_fwd_n_front(l, (n - 1) as nat);
        assert(line_fwd_n(l, n) == line_fwd(line_fwd_n(l, (n - 1) as nat)));
        assert(line_fwd_n(line_fwd(l), (n - 1) as nat)
            == line_fwd(line_fwd_n(line_fwd(l), (n - 2) as nat)));
    }
}

/// `n` forward steps undo `n` backward steps.
proof fn lemma_line_fwd_n_bwd_n(l: Seq<usize>, n: nat)
    ensures
        line_fwd_n(line_bwd_n(l, n), n) == l,
        line_bwd_n(l, n).len() == l.len(),
    decreases n,
{
    if n > 0 {
        let m = (n - 1) as nat;
        lemma_line_fwd_n_bwd_n(l, m);
        let z = line_bwd_n(l, m);
        lemma_line_fwd_n_front(line_bwd(z), n);
        lemma_line_fwd_bwd(z);
    }
}

/// The backward face of the cyclic-permutation law: `k` backward steps of
/// a line of length `k` also restore it.
pub proof fn lemma_line_cycle_bwd(l: Seq<usize>)
    ensures
        line_bwd_n(l, l.len()) == l,
{
    let x = line_bwd_n(l, l.len());
    lemma_line_fwd_n_bwd_n(l, l.len());
    lemma_line_cycle(x);
}

// ---------------------------------------------------------------------------
// Columns and rows of the flat cell array
// ---------------------------------------------------------------------------

/// The line of column `x`, read top to bottom.
pub open spec fn col_of(s: Seq<usize>, w: int, h: int, x: int) -> Seq<usize> {
    Seq::new(h as nat, |y: int| s[y * w + x])
}

/// The cells with column `x` replaced by the line `c` (read top to bottom).
pub open spec fn with_col(s: Seq<usize>, w: int, x: int, c: Seq<usize>) -> Seq<usize> {
    Seq::new(s.len(), |i: int| if i % w == x { c[i / w] } else { s[i] })
}

/// The line of row `y`, read left to right.
pub open spec fn row_of(s: Seq<usize>, w: int, y: int) -> Seq<usize> {
    s.subrange(y * w, y * w + w)
}

/// The cells with row `y` replaced by the line `r` (read left to right).
pub open spec fn with_row(s: Seq<usize>, w: int, y: int, r: Seq<usize>) -> Seq<usize> {
    Seq::new(s.len(), |i: int| if y * w <= i < y * w + w { r[i - y * w] } else { s[i] })
}

/// Index `y * w + x` has remainder `x` and quotient `y` by `w`: it lies in
/// column `x`, row `y`, and within the array.
pub proof fn lemma_grid_index(w: int, h: int, x: int, y: int)
    requires
        0 < w,
        0 <= x < w,
        0 <= y,
    ensures
        (y * w + x) % w == x,
        (y * w + x) / w == y,
        y < h ==> y * w + x < w * h,
{
    lemma_fundamental_div_mod_converse(y * w + x, w, y, x);
    if y < h {
        assert(y * w + x < w * h) by (nonlinear_arith)
            requires 0 < w, 0 <= x < w, 0 <= y < h;
    }
}

/// Any index splits into a row below `h` and a column below `w`.
pub proof fn lemma_index_split(w: int, h: int, i: int)
    requires
        0 < w,
        0 <= i < w * h,
    ensures
        i == (i / w) * w + (i % w),
        0 <= i % w < w,
        0 <= i / w < h,
{
    lemma_fundamental_div_mod(i, w);
    lemma_mod_division_less_than_divisor(i, w);
    vstd::arithmetic::mul::lemma_mul_is_commutative(w, i / w);
    assert(0 <= i / w < h) by (nonlinear_arith)
        requires 0 < w, 0 <= i < w * h, i == (i / w) * w + (i % w), 0 <= i % w < w;
}

/// Writing a column and reading it back yields the written line.
pub proof fn lemma_col_of_with_col(s: Seq<usize>, w: int, h: int, x: int, c: Seq<usize>)
    requires
        0 < w,
        0 < h,
        0 <= x < w,
        s.len() == w * h,
        c.len() == h,
    ensures
        col_of(with_col(s, w, x, c), w, h, x) == c,
{
    assert forall|y: int| 0 <= y < h implies col_of(with_col(s, w, x, c), w, h, x)[y] == c[y] by {
        lemma_grid_index(w, h, x, y);
    }
    assert(col_of(with_col(s, w, x, c), w, h, x) =~= c);
}

/// Writing a column back unchanged leaves the cells unchanged.
pub proof fn lemma_with_col_of_col(s: Seq<usize>, w: int, h: int, x: int)
    requires
        0 < w,
        0 < h,
        0 <= x < w,
        s.len() == w * h,
    ensures
        with_col(s, w, x, col_of(s, w, h, x)) == s,
{
    assert forall|i: int| 0 <= i < s.len() implies with_col(s, w, x, col_of(s, w, h, x))[i]
        == s[i] by {
        lemma_index_split(w, h, i);
        if i % w == x {
            assert(col_of(s, w, h, x)[i / w] == s[(i / w) * w + x]);
        }
    }
    assert(with_col(s, w, x, col_of(s, w, h, x)) =~= s);
}

/// Writing the same column twice keeps only the second write.
pub proof fn lemma_with_col_twice(s: Seq<usize>, w: int, x: int, c1: Seq<usize>, c2: Seq<usize>)
    ensures
        with_col(with_col(s, w, x, c1), w, x, c2) == with_col(s, w, x, c2),
{
    assert(with_col(with_col(s, w, x, c1), w, x, c2) =~= with_col(s, w, x, c2));
}

/// Writing a row and reading it back yields the written line.
pub proof fn lemma_row_of_with_row(s: Seq<usize>, w: int, h: int, y: int, r: Seq<usize>)
    requires
        0 < w,
        0 <= y < h,
        s.len() == w * h,
        r.len() == w,
    ensures
        row_of(with_row(s, w, y, r), w, y) == r,
{
    lemma_row_bounds(w, h, y);
    assert(row_of(with_row(s, w, y, r), w, y) =~= r);
}

/// Writing a row back unchanged leaves the cells unchanged.
pub proof fn lemma_with_row_of_row(s: Seq<usize>, w: int, h: int, y: int)
    requires
        0 < w,
        0 <= y < h,
        s.len() == w * h,
    ensures
        with_row(s, w, y, row_of(s, w, y)) == s,
{
    lemma_row_bounds(w, h, y);
    assert(with_row(s, w, y, row_of(s, w, y)) =~= s);
}

/// Writing the same row twice keeps only the second write.
pub proof fn lemma_with_row_twice(s: Seq<usize>, w: int, y: int, r1: Seq<usize>, r2: Seq<usize>)
    ensures
        with_row(with_row(s, w, y, r1), w, y, r2) == with_row(s, w, y, r2),
{
    assert(with_row(with_row(s, w, y, r1), w, y, r2) =~= with_row(s, w, y, r2));
}

/// Row `y` spans indices `y * w .. y * w + w`, all inside the array.
pub proof fn lemma_row_bounds(w: int, h: int, y: int)
    requires
        0 < w,
        0 <= y < h,
    ensures
        0 <= y * w,
        y * w + w <= w * h,
{
    assert(0 <= y * w && y * w + w <= w * h) by (nonlinear_arith)
        requires 0 < w, 0 <= y < h;
}

// ---------------------------------------------------------------------------
// The four directional rotations
// ---------------------------------------------------------------------------

/// Column `x` shifted up: the tile in the top row moves to the bottom row.
pub open spec fn rot_col_up(s: Seq<usize>, w: int, h: int, x: int) -> Seq<usize> {
    with_col(s, w, x, line_fwd(col_of(s, w, h, x)))
}

/// Column `x` shifted down: the tile in the bottom row moves to the top row.
pub open spec fn rot_col_down(s: Seq<usize>, w: int, h: int, x: int) -> Seq<usize> {
    with_col(s, w, x, line_bwd(col_of(s, w, h, x)))
}

/// Row `y` shifted left: the leftmost tile moves to the right end.
pub open spec fn rot_row_left(s: Seq<usize>, w: int, h: int, y: int) -> Seq<usize> {
    with_row(s, w, y, line_fwd(row_of(s, w, y)))
}

/// Row `y` shifted right: the rightmost tile moves to the left end.
pub open spec fn rot_row_right(s: Seq<usize>, w: int, h: int, y: int) -> Seq<usize> {
    with_row(s, w, y, line_bwd(row_of(s, w, y)))
}

/// Rotating a column down undoes rotating it up.
pub proof fn lemma_col_down_up(s: Seq<usize>, w: int, h: int, x: int)
    requires
        0 < w,
        0 < h,
        0 <= x < w,
        s.len() == w * h,
    ensures
        rot_col_down(rot_col_up(s, w, h, x), w, h, x) == s,
{
    let c = col_of(s, w, h, x);
    lemma_col_of_with_col(s, w, h, x, line_fwd(c));
    lemma_with_col_twice(s, w, x, line_fwd(c), line_bwd(line_fwd(c)));
    lemma_line_bwd_fwd(c);
    lemma_with_col_of_col(s, w, h, x);
}

/// Rotating a column up undoes rotating it down.
pub proof fn lemma_col_up_down(s: Seq<usize>, w: int, h: int, x: int)
    requires
        0 < w,
        0 < h,
        0 <= x < w,
        s.len() == w * h,
    ensures
        rot_col_up(rot_col_down(s, w, h, x), w, h, x) == s,
{
    let c = col_of(s, w, h, x);
    lemma_col_of_with_col(s, w, h, x, line_bwd(c));
    lemma_with_col_twice(s, w, x, line_bwd(c), line_fwd(line_bwd(c)));
    lemma_line_fwd_bwd(c);
    lemma_with_col_of_col(s, w, h, x);
}

/// Rotating a row right undoes rotating it left.
pub proof fn lemma_row_right_left(s: Seq<usize>, w: int, h: int, y: int)
    requires
        0 < w,
        0 <= y < h,
        s.len() == w * h,
    ensures
        rot_row_right(rot_row_left(s, w, h, y), w, h, y) == s,
{
    let r = row_of(s, w, y);
    lemma_row_bounds(w, h, y);
    lemma_row_of_with_row(s, w, h, y, line_fwd(r));
    lemma_with_row_twice(s, w, y, line_fwd(r), line_bwd(line_fwd(r)));
    lemma_line_bwd_fwd(r);
    lemma_with_row_of_row(s, w, h, y);
}

/// Rotating a row left undoes rotating it right.
pub proof fn lemma_row_left_right(s: Seq<usize>, w: int, h: int, y: int)
    requires
        0 < w,
        0 <= y < h,
        s.len() == w * h,
    ensures
        rot_row_left(rot_row_right(s, w, h, y), w, h, y) == s,
{
    let r = row_of(s, w, y);
    lemma_row_bounds(w, h, y);
    lemma_row_of_with_row(s, w, h, y, line_bwd(r));
    lemma_with_row_twice(s, w, y, line_bwd(r), line_fwd(line_bwd(r)));
    lemma_line_fwd_bwd(r);
    lemma_with_row_of_row(s, w, h, y);
}

// ---------------------------------------------------------------------------
// Rotations keep the cells a permutation
// ---------------------------------------------------------------------------

/// Replacing a column by any distinct rearrangement of its own tiles keeps
/// the whole array a permutation of `1..=len`.
proof fn lemma_with_col_valid(s: Seq<usize>, w: int, h: int, x: int, c: Seq<usize>)
    requires
        0 < w,
        0 < h,
        0 <= x < w,
        s.len() == w * h,
        cells_valid(s),
        c.len() == h,
        forall|k: int| 0 <= k < h ==> exists|k2: int| 0 <= k2 < h && #[trigger] c[k] == #[trigger] col_of(s, w, h, x)[k2],
        forall|k1: int, k2: int| 0 <= k1 < h && 0 <= k2 < h && k1 != k2 ==> c[k1] != c[k2],
    ensures
        cells_valid(with_col(s, w, x, c)),
{
    let t = with_col(s, w, x, c);
    assert forall|i: int| 0 <= i < t.len() implies 1 <= #[trigger] t[i] <= t.len() by {
        lemma_index_split(w, h, i);
        if i % w == x {
            let k2 = choose|k2: int| 0 <= k2 < h && c[i / w] == col_of(s, w, h, x)[k2];
            lemma_grid_index(w, h, x, k2);
        }
    }
    assert forall|i: int, j: int|
        0 <= i < t.len() && 0 <= j < t.len() && i != j implies t[i] != t[j] by {
        lemma_index_split(w, h, i);
        lemma_index_split(w, h, j);
        if i % w == x && j % w == x {
            // Both in the replaced column: distinct entries of `c`.
            assert(i / w != j / w);
        } else if i % w == x {
            // `t[i]` is a tile from column `x`, `t[j]` sits outside it.
            let k2 = choose|k2: int| 0 <= k2 < h && c[i / w] == col_of(s, w, h, x)[k2];
            lemma_grid_index(w, h, x, k2);
            assert(t[i] == s[k2 * w + x]);
            assert((k2 * w + x) % w == x);
            assert(t[j] == s[j]);
        } else if j % w == x {
            let k2 = choose|k2: int| 0 <= k2 < h && c[j / w] == col_of(s, w, h, x)[k2];
            lemma_grid_index(w, h, x, k2);
        }
    }
}

/// Replacing a row by any distinct rearrangement of its own tiles keeps the
/// whole array a permutation of `1..=len`.
proof fn lemma_with_row_valid(s: Seq<usize>, w: int, h: int, y: int, r: Seq<usize>)
    requires
        0 < w,
        0 <= y < h,
        s.len() == w * h,
        cells_valid(s),
        r.len() == w,
        forall|k: int| 0 <= k < w ==> exists|k2: int| 0 <= k2 < w && #[trigger] r[k] == #[trigger] row_of(s, w, y)[k2],
        forall|k1: int, k2: int| 0 <= k1 < w && 0 <= k2 < w && k1 != k2 ==> r[k1] != r[k2],
    ensures
        cells_valid(with_row(s, w, y, r)),
{
    lemma_row_bounds(w, h, y);
    let t = with_row(s, w, y, r);
    assert forall|i: int| 0 <= i < t.len() implies 1 <= #[trigger] t[i] <= t.len() by {
        if y * w <= i < y * w + w {
            let k2 = choose|k2: int| 0 <= k2 < w && r[i - y * w] == row_of(s, w, y)[k2];
            assert(t[i] == s[y * w + k2]);
        }
    }
    assert forall|i: int, j: int|
        0 <= i < t.len() && 0 <= j < t.len() && i != j implies t[i] != t[j] by {
        if y * w <= i < y * w + w && y * w <= j < y * w + w {
        } else if y * w <= i < y * w + w {
            let k2 = choose|k2: int| 0 <= k2 < w && r[i - y * w] == row_of(s, w, y)[k2];
            assert(t[i] == s[y * w + k2]);
        } else if y * w <= j < y * w + w {
            let k2 = choose|k2: int| 0 <= k2 < w && r[j - y * w] == row_of(s, w, y)[k2];
            assert(t[j] == s[y * w + k2]);
        }
    }
}

/// A column rotated in either direction is a distinct rearrangement of the
/// same column, so the grid stays a permutation.
pub proof fn lemma_rot_col_up_valid(s: Seq<usize>, w: int, h: int, x: int)
    requires
        0 < w,
        0 < h,
        0 <= x < w,
        s.len() == w * h,
        cells_valid(s),
    ensures
        cells_valid(rot_col_up(s, w, h, x)),
{
    let c = col_of(s, w, h, x);
    lemma_col_distinct(s, w, h, x);
    lemma_line_fwd_distinct(c);
    assert forall|k: int| 0 <= k < h implies exists|k2: int|
        0 <= k2 < h && #[trigger] line_fwd(c)[k] == #[trigger] c[k2] by {
        lemma_line_fwd_index(c, k);
        if k < h - 1 {
            assert(line_fwd(c)[k] == c[k + 1]);
        } else {
            assert(line_fwd(c)[k] == c[0]);
        }
    }
    lemma_with_col_valid(s, w, h, x, line_fwd(c));
}

pub proof fn lemma_rot_col_down_valid(s: Seq<usize>, w: int, h: int, x: int)
    requires
        0 < w,
        0 < h,
        0 <= x < w,
        s.len() == w * h,
        cells_valid(s),
    ensures
        cells_valid(rot_col_down(s, w, h, x)),
{
    let c = col_of(s, w, h, x);
    lemma_col_distinct(s, w, h, x);
    lemma_line_bwd_distinct(c);
    assert forall|k: int| 0 <= k < h implies exists|k2: int|
        0 <= k2 < h && #[trigger] line_bwd(c)[k] == #[trigger] c[k2] by {
        lemma_line_bwd_index(c, k);
        if k == 0 {
            assert(line_bwd(c)[k] == c[h - 1]);
        } else {
            assert(line_bwd(c)[k] == c[k - 1]);
        }
    }
    lemma_with_col_valid(s, w, h, x, line_bwd(c));
}

pub proof fn lemma_rot_row_left_valid(s: Seq<usize>, w: int, h: int, y: int)
    requires
        0 < w,
        0 <= y < h,
        s.len() == w * h,
        cells_valid(s),
    ensures
        cells_valid(rot_row_left(s, w, h, y)),
{
    let r = row_of(s, w, y);
    lemma_row_bounds(w, h, y);
    lemma_line_fwd_distinct(r);
    assert forall|k: int| 0 <= k < w implies exists|k2: int|
        0 <= k2 < w && #[trigger] line_fwd(r)[k] == #[trigger] r[k2] by {
        lemma_line_fwd_index(r, k);
        if k < w - 1 {
            assert(line_fwd(r)[k] == r[k + 1]);
        } else {
            assert(line_fwd(r)[k] == r[0]);
        }
    }
    lemma_with_row_valid(s, w, h, y, line_fwd(r));
}

pub proof fn lemma_rot_row_right_valid(s: Seq<usize>, w: int, h: int, y: int)
    requires
        0 < w,
        0 <= y < h,
        s.len() == w * h,
        cells_valid(s),
    ensures
        cells_valid(rot_row_right(s, w, h, y)),
{
    let r = row_of(s, w, y);
    lemma_row_bounds(w, h, y);
    lemma_line_bwd_distinct(r);
    assert forall|k: int| 0 <= k < w implies exists|k2: int|
        0 <= k2 < w && #[trigger] line_bwd(r)[k] == #[trigger] r[k2] by {
        lemma_line_bwd_index(r, k);
        if k == 0 {
            assert(line_bwd(r)[k] == r[w - 1]);
        } else {
            assert(line_bwd(r)[k] == r[k - 1]);
        }
    }
    lemma_with_row_valid(s, w, h, y, line_bwd(r));
}

/// `n` upward rotations of column `x` in a row.
pub open spec fn rot_col_up_n(s: Seq<usize>, w: int, h: int, x: int, n: nat) -> Seq<usize>
    decreases n,
{
    if n == 0 {
        s
    } else {
        rot_col_up(rot_col_up_n(s, w, h, x, (n - 1) as nat), w, h, x)
    }
}

/// `n` rotations of a column amount to `n` cyclic steps of its line.
proof fn lemma_rot_col_up_n_as_line(s: Seq<usize>, w: int, h: int, x: int, n: nat)
    requires
        0 < w,
        0 < h,
        0 <= x < w,
        s.len() == w * h,
    ensures
        rot_col_up_n(s, w, h, x, n) == with_col(s, w, x, line_fwd_n(col_of(s, w, h, x), n)),
    decreases n,
{
    let c = col_of(s, w, h, x);
    if n == 0 {
        lemma_with_col_of_col(s, w, h, x);
    } else {
        let m = (n - 1) as nat;
        lemma_rot_col_up_n_as_line(s, w, h, x, m);
        lemma_line_fwd_n_index(c, m);
        lemma_col_of_with_col(s, w, h, x, line_fwd_n(c, m));
        lemma_with_col_twice(s, w, x, line_fwd_n(c, m), line_fwd(line_fwd_n(c, m)));
    }
}

/// Rotating a column as many times as it is long restores the whole
/// grid: the board-level face of the cyclic-permutation law.
pub proof fn lemma_col_cycle(s: Seq<usize>, w: int, h: int, x: int)
    requires
        0 < w,
        0 < h,
        0 <= x < w,
        s.len() == w * h,
    ensures
        rot_col_up_n(s, w, h, x, h as nat) == s,
{
    let c = col_of(s, w, h, x);
    lemma_rot_col_up_n_as_line(s, w, h, x, h as nat);
    lemma_line_cycle(c);
    lemma_with_col_of_col(s, w, h, x);
}

/// `n` leftward rotations of row `y` in a row.
pub open spec fn rot_row_left_n(s: Seq<usize>, w: int, h: int, y: int, n: nat) -> Seq<usize>
    decreases n,
{
    if n == 0 {
        s
    } else {
        rot_row_left(rot_row_left_n(s, w, h, y, (n - 1) as nat), w, h, y)
    }
}

/// `n` rotations of a row amount to `n` cyclic steps of its line.
proof fn lemma_rot_row_left_n_as_line(s: Seq<usize>, w: int, h: int, y: int, n: nat)
    requires
        0 < w,
        0 <= y < h,
        s.len() == w * h,
    ensures
        rot_row_left_n(s, w, h, y, n) == with_row(s, w, y, line_fwd_n(row_of(s, w, y), n)),
    decreases n,
{
    let r = row_of(s, w, y);
    lemma_row_bounds(w, h, y);
    if n == 0 {
        lemma_with_row_of_row(s, w, h, y);
    } else {
        let m = (n - 1) as nat;
        lemma_rot_row_left_n_as_line(s, w, h, y, m);
        lemma_line_fwd_n_index(r, m);
        lemma_row_of_with_row(s, w, h, y, line_fwd_n(r, m));
        lemma_with_row_twice(s, w, y, line_fwd_n(r, m), line_fwd(line_fwd_n(r, m)));
    }
}

/// Rotating a row as many times as it is long restores the whole grid.
pub proof fn lemma_row_cycle(s: Seq<usize>, w: int, h: int, y: int)
    requires
        0 < w,
        0 <= y < h,
        s.len() == w * h,
    ensures
        rot_row_left_n(s, w, h, y, w as nat) == s,
{
    lemma_row_bounds(w, h, y);
    let r = row_of(s, w, y);
    assert(r.len() == w as nat);
    lemma_rot_row_left_n_as_line(s, w, h, y, w as nat);
    lemma_line_cycle(r);
    lemma_with_row_of_row(s, w, h, y);
}

/// A rearrangement with the same tiles (the same multiset of values) keeps
/// the cells a permutation of `1..=len`.
pub proof fn lemma_same_tiles_valid(a: Seq<usize>, b: Seq<usize>)
    requires
        cells_valid(a),
        b.to_multiset() == a.to_multiset(),
    ensures
        b.len() == a.len(),
        cells_valid(b),
{
    a.to_multiset_ensures();
    b.to_multiset_ensures();
    assert(b.len() == a.len());
    assert forall|i: int| 0 <= i < b.len() implies 1 <= #[trigger] b[i] <= b.len() by {
        assert(b.contains(b[i]));
        assert(b.to_multiset().count(b[i]) > 0);
        assert(a.contains(b[i]));
        let j = choose|j: int| 0 <= j < a.len() && a[j] == b[i];
        assert(1 <= a[j] <= a.len());
    }
    assert(a.no_duplicates());
    a.lemma_multiset_has_no_duplicates();
    b.lemma_multiset_has_no_duplicates_conv();
    assert(b.no_duplicates());
    assert forall|i: int, j: int|
        0 <= i < b.len() && 0 <= j < b.len() && i != j implies b[i] != b[j] by {
        assert(b.no_duplicates());
    }
}

// ---------------------------------------------------------------------------
// The walk of the executable rotation primitive
// ---------------------------------------------------------------------------

/// The `k`-th index visited when walking from `start` with the given stride,
/// forwards or backwards.
pub open spec fn stride_pos(start: int, stride: int, back: bool, k: int) -> int {
    if back {
        start - k * stride
    } else {
        start + k * stride
    }
}

/// Whether index `i` lies on the walk of `count` steps.
pub open spec fn on_path(start: int, stride: int, back: bool, count: int, i: int) -> bool {
    exists|k: int| 0 <= k < count && i == #[trigger] stride_pos(start, stride, back, k)
}

/// A walk down column `x` (stride `w`, forwards from `x`) that shifts every
/// visited tile one step backwards rotates the column up.
pub proof fn lemma_stride_col_up(s: Seq<usize>, t: Seq<usize>, w: int, h: int, x: int)
    requires
        0 < w,
        0 < h,
        0 <= x < w,
        s.len() == w * h,
        t.len() == s.len(),
        forall|k: int|
            0 <= k < h - 1 ==> t[#[trigger] stride_pos(x, w, false, k)]
                == s[stride_pos(x, w, false, k + 1)],
        t[stride_pos(x, w, false, h - 1)] == s[x],
        forall|i: int|
            0 <= i < t.len() && !on_path(x, w, false, h, i) ==> #[trigger] t[i] == s[i],
    ensures
        t == rot_col_up(s, w, h, x),
{
    let u = rot_col_up(s, w, h, x);
    assert forall|i: int| 0 <= i < t.len() implies t[i] == u[i] by {
        lemma_index_split(w, h, i);
        let k = i / w;
        if i % w == x {
            lemma_grid_index(w, h, x, k);
            assert(stride_pos(x, w, false, k) == k * w + x);
            lemma_line_fwd_index(col_of(s, w, h, x), k);
            if k < h - 1 {
                lemma_grid_index(w, h, x, k + 1);
                assert(t[i] == s[stride_pos(x, w, false, k + 1)]);
            }
        } else {
            assert(!on_path(x, w, false, h, i)) by {
                if on_path(x, w, false, h, i) {
                    let k2 = choose|k2: int|
                        0 <= k2 < h && i == #[trigger] stride_pos(x, w, false, k2);
                    lemma_grid_index(w, h, x, k2);
                }
            }
        }
    }
    assert(t =~= u);
}

/// A walk up column `x` (stride `w`, backwards from the bottom row) that
/// shifts every visited tile one step backwards rotates the column down.
pub proof fn lemma_stride_col_down(s: Seq<usize>, t: Seq<usize>, w: int, h: int, x: int)
    requires
        0 < w,
        0 < h,
        0 <= x < w,
        s.len() == w * h,
        t.len() == s.len(),
        forall|k: int|
            0 <= k < h - 1 ==> t[#[trigger] stride_pos(x + (h - 1) * w, w, true, k)]
                == s[stride_pos(x + (h - 1) * w, w, true, k + 1)],
        t[stride_pos(x + (h - 1) * w, w, true, h - 1)] == s[x + (h - 1) * w],
        forall|i: int|
            0 <= i < t.len() && !on_path(x + (h - 1) * w, w, true, h, i) ==> #[trigger] t[i]
                == s[i],
    ensures
        t == rot_col_down(s, w, h, x),
{
    let start = x + (h - 1) * w;
    let u = rot_col_down(s, w, h, x);
    assert forall|i: int| 0 <= i < t.len() implies t[i] == u[i] by {
        lemma_index_split(w, h, i);
        let r = i / w;
        if i % w == x {
            lemma_grid_index(w, h, x, r);
            lemma_line_bwd_index(col_of(s, w, h, x), r);
            if r >= 1 {
                let k = h - 1 - r;
                assert(stride_pos(start, w, true, k) == start - k * w);
                assert(start - k * w == r * w + x) by (nonlinear_arith)
                    requires start == x + (h - 1) * w, k == h - 1 - r;
                assert(stride_pos(start, w, true, k + 1) == (r - 1) * w + x) by (nonlinear_arith)
                    requires start == x + (h - 1) * w, k == h - 1 - r;
                lemma_grid_index(w, h, x, r - 1);
                assert(t[i] == s[(r - 1) * w + x]);
            } else {
                assert(stride_pos(start, w, true, h - 1) == x) by (nonlinear_arith)
                    requires start == x + (h - 1) * w;
                lemma_grid_index(w, h, x, h - 1);
                assert(t[i] == s[start]);
            }
        } else {
            assert(!on_path(start, w, true, h, i)) by {
                if on_path(start, w, true, h, i) {
                    let k2 = choose|k2: int|
                        0 <= k2 < h && i == #[trigger] stride_pos(start, w, true, k2);
                    assert(i == (h - 1 - k2) * w + x) by (nonlinear_arith)
                        requires i == start - k2 * w, start == x + (h - 1) * w;
                    lemma_grid_index(w, h, x, h - 1 - k2);
                }
            }
        }
    }
    assert(t =~= u);
}

/// A walk right along row `y` (stride 1, forwards from the row start) that
/// shifts every visited tile one step backwards rotates the row left.
pub proof fn lemma_stride_row_left(s: Seq<usize>, t: Seq<usize>, w: int, h: int, y: int)
    requires
        0 < w,
        0 <= y < h,
        s.len() == w * h,
        t.len() == s.len(),
        forall|k: int|
            0 <= k < w - 1 ==> t[#[trigger] stride_pos(y * w, 1, false, k)]
                == s[stride_pos(y * w, 1, false, k + 1)],
        t[stride_pos(y * w, 1, false, w - 1)] == s[y * w],
        forall|i: int|
            0 <= i < t.len() && !on_path(y * w, 1, false, w, i) ==> #[trigger] t[i] == s[i],
    ensures
        t == rot_row_left(s, w, h, y),
{
    lemma_row_bounds(w, h, y);
    let u = rot_row_left(s, w, h, y);
    assert forall|i: int| 0 <= i < t.len() implies t[i] == u[i] by {
        if y * w <= i < y * w + w {
            let k = i - y * w;
            assert(stride_pos(y * w, 1, false, k) == i);
            assert(stride_pos(y * w, 1, false, k + 1) == i + 1);
            lemma_line_fwd_index(row_of(s, w, y), k);
        } else {
            assert(!on_path(y * w, 1, false, w, i)) by {
                if on_path(y * w, 1, false, w, i) {
                    let k2 = choose|k2: int|
                        0 <= k2 < w && i == #[trigger] stride_pos(y * w, 1, false, k2);
                }
            }
        }
    }
    assert(t =~= u);
}

/// A walk left along row `y` (stride 1, backwards from the row end) that
/// shifts every visited tile one step backwards rotates the row right.
pub proof fn lemma_stride_row_right(s: Seq<usize>, t: Seq<usize>, w: int, h: int, y: int)
    requires
        0 < w,
        0 <= y < h,
        s.len() == w * h,
        t.len() == s.len(),
        forall|k: int|
            0 <= k < w - 1 ==> t[#[trigger] stride_pos(y * w + w - 1, 1, true, k)]
                == s[stride_pos(y * w + w - 1, 1, true, k + 1)],
        t[stride_pos(y * w + w - 1, 1, true, w - 1)] == s[y * w + w - 1],
        forall|i: int|
            0 <= i < t.len() && !on_path(y * w + w - 1, 1, true, w, i) ==> #[trigger] t[i]
                == s[i],
    ensures
        t == rot_row_right(s, w, h, y),
{
    lemma_row_bounds(w, h, y);
    let start = y * w + w - 1;
    let u = rot_row_right(s, w, h, y);
    assert forall|i: int| 0 <= i < t.len() implies t[i] == u[i] by {
        if y * w <= i < y * w + w {
            let k = start - i;
            assert(stride_pos(start, 1, true, k) == i);
            assert(stride_pos(start, 1, true, k + 1) == i - 1);
            lemma_line_bwd_index(row_of(s, w, y), i - y * w);
        } else {
            assert(!on_path(start, 1, true, w, i)) by {
                if on_path(start, 1, true, w, i) {
                    let k2 = choose|k2: int|
                        0 <= k2 < w && i == #[trigger] stride_pos(start, 1, true, k2);
                }
            }
        }
    }
    assert(t =~= u);
}

/// Distinct cells make every column a line of distinct tiles.
proof fn lemma_col_distinct(s: Seq<usize>, w: int, h: int, x: int)
    requires
        0 < w,
        0 < h,
        0 <= x < w,
        s.len() == w * h,
        cells_valid(s),
    ensures
        forall|k1: int, k2: int|
            0 <= k1 < h && 0 <= k2 < h && k1 != k2
                ==> col_of(s, w, h, x)[k1] != col_of(s, w, h, x)[k2],
{
    assert forall|k1: int, k2: int|
        0 <= k1 < h && 0 <= k2 < h && k1 != k2 implies col_of(s, w, h, x)[k1]
        != col_of(s, w, h, x)[k2] by {
        lemma_grid_index(w, h, x, k1);
        lemma_grid_index(w, h, x, k2);
    }
}

} // verus!
