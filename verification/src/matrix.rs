//! Dense rectangular matrices of 64-bit integer scalars, stored row-major.
//!
//! The mathematical value of a matrix is its *grid*: a sequence of rows,
//! each row a sequence of unbounded integers. Every operation's contract is
//! stated over grids, so callers reason about exact integer algebra.
//! A column vector is a matrix of width 1.

use vstd::prelude::*;

use crate::error::GptError;

verus! {

/// A grid `g` is rectangular with width `w` and height `h`:
/// `h` rows, each of length `w`.
pub open spec fn rect(g: Seq<Seq<int>>, w: int, h: int) -> bool {
    g.len() == h && (forall|y: int| 0 <= y < h ==> (#[trigger] g[y]).len() == w)
}

/// A `w` by `h` grid of zeros.
pub open spec fn zero_grid(w: int, h: int) -> Seq<Seq<int>> {
    Seq::new(h as nat, |y: int| Seq::new(w as nat, |x: int| 0))
}

/// The grid `g` with the entry at column `x`, row `y` replaced by `v`.
pub open spec fn set_grid(g: Seq<Seq<int>>, x: int, y: int, v: int) -> Seq<Seq<int>> {
    g.update(y, g[y].update(x, v))
}

/// A fixed-size rectangular matrix of integer entries, addressed by
/// (column, row). Dimensions are fixed at construction and never change.
#[derive(Debug, PartialEq)]
pub struct Matrix {
    width: usize,
    height: usize,
    data: Vec<i64>,
}

impl View for Matrix {
    type V = Seq<Seq<int>>;

    /// The grid of the matrix: row `y` holds the entries
    /// `data[y*width] .. data[y*width + width - 1]`.
    closed spec fn view(&self) -> Seq<Seq<int>> {
        Seq::new(
            self.height as nat,
            |y: int| Seq::new(self.width as nat, |x: int| self.data@[y * self.width + x] as int),
        )
    }
}

/// Row-major position of (x, y) stays inside a `w` by `h` matrix's storage.
proof fn lemma_row_major_in_bounds(w: int, h: int, x: int, y: int)
    requires
        0 <= x < w,
        0 <= y < h,
    ensures
        0 <= y * w + x,
        y * w + x < w * h,
        y * w + x < h * w,
{
    assert(0 <= y * w + x && y * w + x < w * h && y * w + x < h * w) by (nonlinear_arith)
        requires
            0 <= x < w,
            0 <= y < h,
    ;
}

impl Matrix {
    /// Width: number of columns.
    pub closed spec fn spec_width(&self) -> int {
        self.width as int
    }

    /// Height: number of rows.
    pub closed spec fn spec_height(&self) -> int {
        self.height as int
    }

    /// The storage holds exactly one scalar for every (column, row) pair.
    pub closed spec fn well_formed(&self) -> bool {
        self.data@.len() == self.height * self.width
    }

    /// The entry in column `x` of row `y`.
    pub open spec fn entry(&self, x: int, y: int) -> int {
        self@[y][x]
    }

    /// The grid of a matrix is rectangular with its own dimensions.
    pub proof fn lemma_view_rect(&self)
        ensures
            rect(self@, self.spec_width(), self.spec_height()),
    {
    }

    /// Number of columns.
    pub fn width(&self) -> (w: usize)
        ensures
            w == self.spec_width(),
    {
        self.width
    }

    /// Number of rows.
    pub fn height(&self) -> (h: usize)
        ensures
            h == self.spec_height(),
    {
        self.height
    }

    /// A `width` by `height` matrix with every entry zero.
    pub fn new_zeroed(width: usize, height: usize) -> (r: Matrix)
        requires
            width * height <= usize::MAX,
        ensures
            r.well_formed(),
            r.spec_width() == width,
            r.spec_height() == height,
            r@ == zero_grid(width as int, height as int),
    {
        proof {
            assert(width * height == height * width) by (nonlinear_arith);
        }
        let n = width * height;
        let mut data: Vec<i64> = Vec::new();
        let mut i: usize = 0;
        while i < n
            invariant
                i <= n,
                data@.len() == i,
                forall|j: int| 0 <= j < i ==> data@[j] == 0,
            decreases n - i,
        {
            data.push(0);
            i = i + 1;
        }
        let r = Matrix { width, height, data };
        proof {
            assert forall|y: int| 0 <= y < height implies r@[y] =~= zero_grid(width as int, height as int)[y] by {
                assert forall|x: int| 0 <= x < width implies r@[y][x] == 0 by {
                    lemma_row_major_in_bounds(width as int, height as int, x, y);
                }
            }
            assert(r@ =~= zero_grid(width as int, height as int));
        }
        r
    }

    /// Read the entry at (x, y); `IndexOutOfRange` exactly when (x, y)
    /// lies outside the matrix.
    pub fn get(&self, x: usize, y: usize) -> (r: Result<i64, GptError>)
        requires
            self.well_formed(),
        ensures
            match r {
                Ok(v) => x < self.spec_width() && y < self.spec_height() && v == self.entry(
                    x as int,
                    y as int,
                ),
                Err(e) => e == GptError::IndexOutOfRange && !(x < self.spec_width() && y
                    < self.spec_height()),
            },
    {
        if x < self.width && y < self.height {
            Ok(self.at(x, y))
        } else {
            Err(GptError::IndexOutOfRange)
        }
    }

    /// Unchecked-by-the-caller entry read; bounds are a precondition.
    fn at(&self, x: usize, y: usize) -> (v: i64)
        requires
            self.well_formed(),
            x < self.spec_width(),
            y < self.spec_height(),
        ensures
            v == self.entry(x as int, y as int),
    {
        let n = self.data.len();
        proof {
            lemma_row_major_in_bounds(
                self.width as int,
                self.height as int,
                x as int,
                y as int,
            );
            assert(y * self.spec_width() + x < n);
        }
        self.data[y * self.width + x]
    }

    /// Write `v` at (x, y); `IndexOutOfRange` exactly when (x, y) lies
    /// outside the matrix, and then the matrix is unchanged.
    pub fn set(&mut self, x: usize, y: usize, v: i64) -> (r: Result<(), GptError>)
        requires
            old(self).well_formed(),
        ensures
            final(self).well_formed(),
            final(self).spec_width() == old(self).spec_width(),
            final(self).spec_height() == old(self).spec_height(),
            match r {
                Ok(()) => x < old(self).spec_width() && y < old(self).spec_height()
                    && final(self)@ == set_grid(old(self)@, x as int, y as int, v as int),
                Err(e) => e == GptError::IndexOutOfRange && !(x < old(self).spec_width() && y
                    < old(self).spec_height()) && final(self)@ == old(self)@,
            },
    {
        if x < self.width && y < self.height {
            self.put(x, y, v);
            Ok(())
        } else {
            Err(GptError::IndexOutOfRange)
        }
    }

    /// Unchecked-by-the-caller entry write; bounds are a precondition.
    pub(crate) fn put(&mut self, x: usize, y: usize, v: i64)
        requires
            old(self).well_formed(),
            x < old(self).spec_width(),
            y < old(self).spec_height(),
        ensures
            final(self).well_formed(),
            final(self).spec_width() == old(self).spec_width(),
            final(self).spec_height() == old(self).spec_height(),
            final(self)@ == set_grid(old(self)@, x as int, y as int, v as int),
    {
        let n = self.data.len();
        proof {
            lemma_row_major_in_bounds(
                self.width as int,
                self.height as int,
                x as int,
                y as int,
            );
            assert(y * self.spec_width() + x < n);
        }
        self.data[y * self.width + x] = v;
        proof {
            self.lemma_set_view(*old(self), x as int, y as int, v as int);
        }
    }

    /// After one storage write at the row-major position of (x, y), the grid
    /// is the old grid with that one entry replaced.
    proof fn lemma_set_view(&self, prev: Matrix, x: int, y: int, v: int)
        requires
            prev.well_formed(),
            0 <= x < prev.spec_width(),
            0 <= y < prev.spec_height(),
            self.width == prev.width,
            self.height == prev.height,
            self.data@ == prev.data@.update(y * prev.spec_width() + x, v as i64),
            i64::MIN <= v <= i64::MAX,
        ensures
            self.well_formed(),
            self@ == set_grid(prev@, x, y, v),
    {
        lemma_row_major_in_bounds(prev.spec_width(), prev.spec_height(), x, y);
        let w = prev.spec_width();
        assert forall|yy: int| 0 <= yy < self.spec_height() implies self@[yy] =~= set_grid(
            prev@,
            x,
            y,
            v,
        )[yy] by {
            assert forall|xx: int| 0 <= xx < w implies self@[yy][xx] == set_grid(
                prev@,
                x,
                y,
                v,
            )[yy][xx] by {
                lemma_row_major_in_bounds(w, prev.spec_height(), xx, yy);
                if yy * w + xx == y * w + x {
                    lemma_row_major_distinct(w, x, y, xx, yy);
                }
            }
        }
        assert(self@ =~= set_grid(prev@, x, y, v));
    }
}

impl Clone for Matrix {
    /// An independent copy: same dimensions, same grid.
    fn clone(&self) -> (r: Self)
        ensures
            r.spec_width() == self.spec_width(),
            r.spec_height() == self.spec_height(),
            r.well_formed() == self.well_formed(),
            r@ == self@,
    {
        let r = Matrix { width: self.width, height: self.height, data: self.data.clone() };
        proof {
            assert(r.data@ =~= self.data@);
            assert forall|y: int| 0 <= y < r@.len() implies r@[y] =~= self@[y] by {}
            assert(r@ =~= self@);
        }
        r
    }
}

/// The entrywise sum of two grids of the shape of `a`.
pub open spec fn add_grid(a: Seq<Seq<int>>, b: Seq<Seq<int>>) -> Seq<Seq<int>> {
    Seq::new(a.len(), |y: int| Seq::new(a[y].len(), |x: int| a[y][x] + b[y][x]))
}

/// Every entrywise sum of `a` and `b` fits the 64-bit scalar type.
pub open spec fn sums_fit_i64(a: Seq<Seq<int>>, b: Seq<Seq<int>>) -> bool {
    forall|x: int, y: int| #![trigger a[y][x], b[y][x]]
        0 <= y < a.len() && 0 <= x < a[y].len() ==> i64::MIN <= a[y][x] + b[y][x] <= i64::MAX
}

/// The dot product of the first `k` entries of row `y` of `a` with the
/// first `k` entries of column `x` of `b`.
pub open spec fn dot(a: Seq<Seq<int>>, b: Seq<Seq<int>>, x: int, y: int, k: nat) -> int
    decreases k,
{
    if k == 0 {
        0
    } else {
        dot(a, b, x, y, (k - 1) as nat) + a[y][k - 1] * b[k - 1][x]
    }
}

/// The matrix product of `a` (whose rows have length `inner`) with `b`
/// (whose rows have length `out_w` and which has `inner` rows):
/// entry (x, y) is the dot product of row `y` of `a` with column `x` of `b`.
pub open spec fn mul_grid(a: Seq<Seq<int>>, b: Seq<Seq<int>>, out_w: int, inner: nat) -> Seq<
    Seq<int>,
> {
    Seq::new(a.len(), |y: int| Seq::new(out_w as nat, |x: int| dot(a, b, x, y, inner)))
}

/// Every partial dot product arising in the product of `a` and `b`
/// fits the 64-bit scalar type.
pub open spec fn dots_fit_i64(a: Seq<Seq<int>>, b: Seq<Seq<int>>, out_w: int, inner: nat) -> bool {
    forall|x: int, y: int, k: nat|
        0 <= x < out_w && 0 <= y < a.len() && k <= inner ==> i64::MIN <= #[trigger] dot(
            a,
            b,
            x,
            y,
            k,
        ) <= i64::MAX
}

/// Matrix addition is commutative: on equal-shaped grids, the entrywise
/// sum does not depend on the order of the operands.
pub proof fn lemma_add_grid_commutative(a: Seq<Seq<int>>, b: Seq<Seq<int>>, w: int, h: int)
    requires
        rect(a, w, h),
        rect(b, w, h),
    ensures
        add_grid(a, b) == add_grid(b, a),
{
    assert forall|y: int| 0 <= y < h implies add_grid(a, b)[y] =~= add_grid(b, a)[y] by {}
    assert(add_grid(a, b) =~= add_grid(b, a));
}

/// Matrix addition is associative: on equal-shaped grids, summing three
/// matrices gives the same grid however the sums are grouped.
pub proof fn lemma_add_grid_associative(
    a: Seq<Seq<int>>,
    b: Seq<Seq<int>>,
    c: Seq<Seq<int>>,
    w: int,
    h: int,
)
    requires
        rect(a, w, h),
        rect(b, w, h),
        rect(c, w, h),
    ensures
        add_grid(add_grid(a, b), c) == add_grid(a, add_grid(b, c)),
{
    assert forall|y: int| 0 <= y < h implies add_grid(add_grid(a, b), c)[y] =~= add_grid(
        a,
        add_grid(b, c),
    )[y] by {
        assert(add_grid(a, b)[y].len() == w);
        assert(add_grid(b, c)[y].len() == w);
    }
    assert(add_grid(add_grid(a, b), c) =~= add_grid(a, add_grid(b, c)));
}

impl Matrix {
    /// Elementwise sum; `ShapeMismatch` exactly when the operands'
    /// dimensions differ.
    pub fn add(&self, other: &Matrix) -> (r: Result<Matrix, GptError>)
        requires
            self.well_formed(),
            other.well_formed(),
            (self.spec_width() == other.spec_width() && self.spec_height()
                == other.spec_height()) ==> sums_fit_i64(self@, other@),
        ensures
            match r {
                Ok(c) => {
                    &&& self.spec_width() == other.spec_width()
                    &&& self.spec_height() == other.spec_height()
                    &&& c.well_formed()
                    &&& c.spec_width() == self.spec_width()
                    &&& c.spec_height() == self.spec_height()
                    &&& c@ == add_grid(self@, other@)
                },
                Err(e) => e == GptError::ShapeMismatch && !(self.spec_width()
                    == other.spec_width() && self.spec_height() == other.spec_height()),
            },
    {
        if self.width != other.width || self.height != other.height {
            return Err(GptError::ShapeMismatch);
        }
        let w = self.width;
        let h = self.height;
        let mut data: Vec<i64> = Vec::new();
        let mut y: usize = 0;
        while y < h
            invariant
                self.well_formed(),
                other.well_formed(),
                sums_fit_i64(self@, other@),
                w == self.spec_width(),
                h == self.spec_height(),
                w == other.spec_width(),
                h == other.spec_height(),
                y <= h,
                data@.len() == y * w,
                forall|yy: int, xx: int|
                    0 <= yy < y && 0 <= xx < w ==> #[trigger] data@[yy * w + xx] == self@[yy][xx]
                        + other@[yy][xx],
            decreases h - y,
        {
            let mut x: usize = 0;
            while x < w
                invariant
                    self.well_formed(),
                    other.well_formed(),
                    sums_fit_i64(self@, other@),
                    w == self.spec_width(),
                    h == self.spec_height(),
                    w == other.spec_width(),
                    h == other.spec_height(),
                    y < h,
                    x <= w,
                    data@.len() == y * w + x,
                    forall|yy: int, xx: int|
                        0 <= yy < y && 0 <= xx < w ==> #[trigger] data@[yy * w + xx]
                            == self@[yy][xx] + other@[yy][xx],
                    forall|xx: int|
                        0 <= xx < x ==> #[trigger] data@[y * w + xx] == self@[y as int][xx]
                            + other@[y as int][xx],
                decreases w - x,
            {
                let av = self.at(x, y);
                let bv = other.at(x, y);
                let ghost pre = data@;
                data.push(av + bv);
                proof {
                    assert forall|yy: int, xx: int| 0 <= yy < y && 0 <= xx < w implies #[trigger] data@[yy
                        * w + xx] == self@[yy][xx] + other@[yy][xx] by {
                        lemma_row_major_in_bounds(w as int, y as int, xx, yy);
                        assert(0 <= yy * w + xx < pre.len());
                        assert(data@[yy * w + xx] == pre[yy * w + xx]);
                    }
                }
                x = x + 1;
            }
            proof {
                assert((y + 1) * w == y * w + w) by (nonlinear_arith);
                assert forall|yy: int, xx: int| 0 <= yy < y + 1 && 0 <= xx < w implies #[trigger] data@[yy
                    * w + xx] == self@[yy][xx] + other@[yy][xx] by {
                    if yy < y {
                        lemma_row_major_in_bounds(w as int, y as int, xx, yy);
                    }
                }
            }
            y = y + 1;
        }
        let c = Matrix { width: w, height: h, data };
        proof {
            assert forall|yy: int| 0 <= yy < h implies c@[yy] =~= add_grid(self@, other@)[yy] by {
                assert forall|xx: int| 0 <= xx < w implies c@[yy][xx] == self@[yy][xx]
                    + other@[yy][xx] by {
                    lemma_row_major_in_bounds(w as int, h as int, xx, yy);
                }
            }
            assert(c@ =~= add_grid(self@, other@));
        }
        Ok(c)
    }

    /// Matrix product by the standard dot-product definition;
    /// `ShapeMismatch` exactly when the inner dimensions differ
    /// (this matrix's width must equal `other`'s height).
    pub fn mul(&self, other: &Matrix) -> (r: Result<Matrix, GptError>)
        requires
            self.well_formed(),
            other.well_formed(),
            self.spec_width() == other.spec_height() ==> dots_fit_i64(
                self@,
                other@,
                other.spec_width(),
                self.spec_width() as nat,
            ),
        ensures
            match r {
                Ok(c) => {
                    &&& self.spec_width() == other.spec_height()
                    &&& c.well_formed()
                    &&& c.spec_width() == other.spec_width()
                    &&& c.spec_height() == self.spec_height()
                    &&& c@ == mul_grid(self@, other@, other.spec_width(), self.spec_width() as nat)
                },
                Err(e) => e == GptError::ShapeMismatch && self.spec_width()
                    != other.spec_height(),
            },
    {
        if self.width != other.height {
            return Err(GptError::ShapeMismatch);
        }
        let inner = self.width;
        let w = other.width;
        let h = self.height;
        let ghost ag = self@;
        let ghost bg = other@;
        let mut data: Vec<i64> = Vec::new();
        let mut y: usize = 0;
        while y < h
            invariant
                self.well_formed(),
                other.well_formed(),
                dots_fit_i64(ag, bg, w as int, inner as nat),
                ag == self@,
                bg == other@,
                inner == self.spec_width(),
                inner == other.spec_height(),
                w == other.spec_width(),
                h == self.spec_height(),
                y <= h,
                data@.len() == y * w,
                forall|yy: int, xx: int|
                    0 <= yy < y && 0 <= xx < w ==> #[trigger] data@[yy * w + xx] == dot(
                        ag,
                        bg,
                        xx,
                        yy,
                        inner as nat,
                    ),
            decreases h - y,
        {
            let mut x: usize = 0;
            while x < w
                invariant
                    self.well_formed(),
                    other.well_formed(),
                    dots_fit_i64(ag, bg, w as int, inner as nat),
                    ag == self@,
                    bg == other@,
                    inner == self.spec_width(),
                    inner == other.spec_height(),
                    w == other.spec_width(),
                    h == self.spec_height(),
                    y < h,
                    x <= w,
                    data@.len() == y * w + x,
                    forall|yy: int, xx: int|
                        0 <= yy < y && 0 <= xx < w ==> #[trigger] data@[yy * w + xx] == dot(
                            ag,
                            bg,
                            xx,
                            yy,
                            inner as nat,
                        ),
                    forall|xx: int|
                        0 <= xx < x ==> #[trigger] data@[y * w + xx] == dot(
                            ag,
                            bg,
                            xx,
                            y as int,
                            inner as nat,
                        ),
                decreases w - x,
            {
                let mut acc: i128 = 0;
                let mut k: usize = 0;
                while k < inner
                    invariant
                        self.well_formed(),
                        other.well_formed(),
                        dots_fit_i64(ag, bg, w as int, inner as nat),
                        ag == self@,
                        bg == other@,
                        inner == self.spec_width(),
                        inner == other.spec_height(),
                        w == other.spec_width(),
                        h == self.spec_height(),
                        y < h,
                        x < w,
                        k <= inner,
                        acc == dot(ag, bg, x as int, y as int, k as nat),
                        i64::MIN <= acc <= i64::MAX,
                    decreases inner - k,
                {
                    let av = self.at(k, y);
                    let bv = other.at(x, k);
                    proof {
                        assert((av as int) * (bv as int) <= 0x4000_0000_0000_0000_0000_0000_0000_0000
                            && (av as int) * (bv as int)
                            >= -0x4000_0000_0000_0000_0000_0000_0000_0000) by (nonlinear_arith)
                            requires
                                i64::MIN <= av <= i64::MAX,
                                i64::MIN <= bv <= i64::MAX,
                        ;
                        assert(dot(ag, bg, x as int, y as int, (k + 1) as nat) == acc + (av as int)
                            * (bv as int));
                        assert(i64::MIN <= dot(ag, bg, x as int, y as int, (k + 1) as nat)
                            <= i64::MAX);
                    }
                    acc = acc + (av as i128) * (bv as i128);
                    k = k + 1;
                }
                let ghost pre = data@;
                data.push(acc as i64);
                proof {
                    assert forall|yy: int, xx: int| 0 <= yy < y && 0 <= xx < w implies #[trigger] data@[yy
                        * w + xx] == dot(ag, bg, xx, yy, inner as nat) by {
                        lemma_row_major_in_bounds(w as int, y as int, xx, yy);
                        assert(0 <= yy * w + xx < pre.len());
                        assert(data@[yy * w + xx] == pre[yy * w + xx]);
                    }
                }
                x = x + 1;
            }
            proof {
                assert((y + 1) * w == y * w + w) by (nonlinear_arith);
                assert forall|yy: int, xx: int| 0 <= yy < y + 1 && 0 <= xx < w implies #[trigger] data@[yy
                    * w + xx] == dot(ag, bg, xx, yy, inner as nat) by {
                    if yy < y {
                        lemma_row_major_in_bounds(w as int, y as int, xx, yy);
                    }
                }
            }
            y = y + 1;
        }
        let c = Matrix { width: w, height: h, data };
        proof {
            assert forall|yy: int| 0 <= yy < h implies c@[yy] =~= mul_grid(
                ag,
                bg,
                w as int,
                inner as nat,
            )[yy] by {
                assert forall|xx: int| 0 <= xx < w implies c@[yy][xx] == dot(
                    ag,
                    bg,
                    xx,
                    yy,
                    inner as nat,
                ) by {
                    lemma_row_major_in_bounds(w as int, h as int, xx, yy);
                }
            }
            assert(c@ =~= mul_grid(ag, bg, w as int, inner as nat));
        }
        Ok(c)
    }
}

/// The transpose of a `w` by `h` grid: entry (x, y) becomes entry (y, x).
pub open spec fn transpose_grid(g: Seq<Seq<int>>, w: int, h: int) -> Seq<Seq<int>> {
    Seq::new(w as nat, |y: int| Seq::new(h as nat, |x: int| g[x][y]))
}

impl Matrix {
    /// The transpose: an `h` by `w` matrix whose entry at (x, y) is this
    /// matrix's entry at (y, x).
    pub fn transpose(&self) -> (t: Matrix)
        requires
            self.well_formed(),
        ensures
            t.well_formed(),
            t.spec_width() == self.spec_height(),
            t.spec_height() == self.spec_width(),
            t@ == transpose_grid(self@, self.spec_width(), self.spec_height()),
    {
        let w = self.width;
        let h = self.height;
        let n = self.data.len();
        proof {
            assert(h * w == w * h) by (nonlinear_arith);
            assert(h * w <= n);
        }
        let mut t = Matrix::new_zeroed(h, w);
        let mut y: usize = 0;
        while y < w
            invariant
                self.well_formed(),
                w == self.spec_width(),
                h == self.spec_height(),
                t.well_formed(),
                t.spec_width() == h,
                t.spec_height() == w,
                rect(t@, h as int, w as int),
                y <= w,
                forall|yy: int, xx: int|
                    0 <= yy < y && 0 <= xx < h ==> t@[yy][xx] == #[trigger] self@[xx][yy],
            decreases w - y,
        {
            let mut x: usize = 0;
            while x < h
                invariant
                    self.well_formed(),
                    w == self.spec_width(),
                    h == self.spec_height(),
                    t.well_formed(),
                    t.spec_width() == h,
                    t.spec_height() == w,
                    rect(t@, h as int, w as int),
                    y < w,
                    x <= h,
                    forall|yy: int, xx: int|
                        0 <= yy < y && 0 <= xx < h ==> t@[yy][xx] == #[trigger] self@[xx][yy],
                    forall|xx: int|
                        0 <= xx < x ==> t@[y as int][xx] == #[trigger] self@[xx][y as int],
                decreases h - x,
            {
                let v = self.at(y, x);
                let ghost prev = t@;
                t.put(x, y, v);
                proof {
                    t.lemma_view_rect();
                    assert forall|yy: int, xx: int| 0 <= yy < y && 0 <= xx < h implies t@[yy][xx]
                        == #[trigger] self@[xx][yy] by {
                        assert(t@[yy] == prev[yy]);
                    }
                    assert forall|xx: int| 0 <= xx < x + 1 implies t@[y as int][xx]
                        == #[trigger] self@[xx][y as int] by {
                        assert(t@[y as int] == prev[y as int].update(x as int, v as int));
                        if xx < x {
                            assert(t@[y as int][xx] == prev[y as int][xx]);
                        }
                    }
                }
                x = x + 1;
            }
            y = y + 1;
        }
        proof {
            assert forall|yy: int| 0 <= yy < w implies t@[yy] =~= transpose_grid(
                self@,
                w as int,
                h as int,
            )[yy] by {
                self.lemma_view_rect();
            }
            assert(t@ =~= transpose_grid(self@, w as int, h as int));
        }
        t
    }
}

/// The grid `g` with every entry divided by `k`, rounding down.
pub open spec fn scale_grid(g: Seq<Seq<int>>, k: int) -> Seq<Seq<int>> {
    Seq::new(g.len(), |y: int| Seq::new(g[y].len(), |x: int| g[y][x] / k))
}

impl Matrix {
    /// Every entry divided by `k`, rounding down. Entries must be
    /// nonnegative; where this is used they are sums of products of
    /// nonnegative weights.
    pub fn scale_down(&self, k: i64) -> (r: Matrix)
        requires
            self.well_formed(),
            1 <= k,
            entries_in_range(self@, i64::MAX as int + 1),
        ensures
            r.well_formed(),
            r.spec_width() == self.spec_width(),
            r.spec_height() == self.spec_height(),
            r@ == scale_grid(self@, k as int),
    {
        let w = self.width;
        let h = self.height;
        proof {
            self.lemma_view_rect();
        }
        let mut data: Vec<i64> = Vec::new();
        let mut y: usize = 0;
        while y < h
            invariant
                self.well_formed(),
                w == self.spec_width(),
                h == self.spec_height(),
                rect(self@, w as int, h as int),
                entries_in_range(self@, i64::MAX as int + 1),
                1 <= k,
                y <= h,
                data@.len() == y * w,
                forall|yy: int, xx: int|
                    0 <= yy < y && 0 <= xx < w ==> #[trigger] data@[yy * w + xx] == self@[yy][xx]
                        / (k as int),
            decreases h - y,
        {
            let mut x: usize = 0;
            while x < w
                invariant
                    self.well_formed(),
                    w == self.spec_width(),
                    h == self.spec_height(),
                    rect(self@, w as int, h as int),
                    entries_in_range(self@, i64::MAX as int + 1),
                    1 <= k,
                    y < h,
                    x <= w,
                    data@.len() == y * w + x,
                    forall|yy: int, xx: int|
                        0 <= yy < y && 0 <= xx < w ==> #[trigger] data@[yy * w + xx]
                            == self@[yy][xx] / (k as int),
                    forall|xx: int|
                        0 <= xx < x ==> #[trigger] data@[y * w + xx] == self@[y as int][xx] / (
                        k as int),
                decreases w - x,
            {
                let v = self.at(x, y);
                proof {
                    vstd::arithmetic::div_mod::lemma_div_nonincreasing(v as int, k as int);
                    vstd::arithmetic::div_mod::lemma_div_pos_is_pos(v as int, k as int);
                }
                let q = ((v as u64) / (k as u64)) as i64;
                let ghost pre = data@;
                data.push(q);
                proof {
                    assert forall|yy: int, xx: int| 0 <= yy < y && 0 <= xx < w implies #[trigger] data@[yy
                        * w + xx] == self@[yy][xx] / (k as int) by {
                        lemma_row_major_in_bounds(w as int, y as int, xx, yy);
                        assert(0 <= yy * w + xx < pre.len());
                        assert(data@[yy * w + xx] == pre[yy * w + xx]);
                    }
                }
                x = x + 1;
            }
            proof {
                assert((y + 1) * w == y * w + w) by (nonlinear_arith);
                assert forall|yy: int, xx: int| 0 <= yy < y + 1 && 0 <= xx < w implies #[trigger] data@[yy
                    * w + xx] == self@[yy][xx] / (k as int) by {
                    if yy < y {
                        lemma_row_major_in_bounds(w as int, y as int, xx, yy);
                    }
                }
            }
            y = y + 1;
        }
        let r = Matrix { width: w, height: h, data };
        proof {
            assert forall|yy: int| 0 <= yy < h implies r@[yy] =~= scale_grid(self@, k as int)[yy] by {
                assert forall|xx: int| 0 <= xx < w implies r@[yy][xx] == self@[yy][xx] / (
                k as int) by {
                    lemma_row_major_in_bounds(w as int, h as int, xx, yy);
                }
            }
            assert(r@ =~= scale_grid(self@, k as int));
        }
        r
    }
}

/// Dividing every entry of a grid with entries in `[0, bound)` by a
/// positive `k` keeps the entries in `[0, bound)` and the shape unchanged.
pub proof fn lemma_scale_grid_range(g: Seq<Seq<int>>, k: int, w: int, h: int, bound: int)
    requires
        1 <= k,
        0 < bound,
        rect(g, w, h),
        entries_in_range(g, bound),
    ensures
        rect(scale_grid(g, k), w, h),
        entries_in_range(scale_grid(g, k), bound),
{
    let s = scale_grid(g, k);
    assert forall|y: int| 0 <= y < h implies (#[trigger] s[y]).len() == w by {}
    assert forall|y: int, x: int|
        0 <= y < s.len() && 0 <= x < s[y].len() implies 0 <= #[trigger] s[y][x] < bound by {
        assert(s[y][x] == g[y][x] / k);
        vstd::arithmetic::div_mod::lemma_div_nonincreasing(g[y][x], k);
        vstd::arithmetic::div_mod::lemma_div_pos_is_pos(g[y][x], k);
    }
}

/// Entrywise sums of two equal-shaped grids with entries in `[0, ba)` and
/// `[0, bb)` fit the 64-bit scalar type whenever `ba + bb` is not above it.
pub proof fn lemma_sums_fit_from_range(
    a: Seq<Seq<int>>,
    b: Seq<Seq<int>>,
    w: int,
    h: int,
    ba: int,
    bb: int,
)
    requires
        rect(a, w, h),
        rect(b, w, h),
        entries_in_range(a, ba),
        entries_in_range(b, bb),
        ba + bb <= i64::MAX as int + 1,
    ensures
        sums_fit_i64(a, b),
{
    assert forall|x: int, y: int| #![trigger a[y][x], b[y][x]]
        0 <= y < a.len() && 0 <= x < a[y].len() implies i64::MIN <= a[y][x] + b[y][x]
        <= i64::MAX by {}
}

/// Every entry of grid `g` lies in `[0, bound)`.
pub open spec fn entries_in_range(g: Seq<Seq<int>>, bound: int) -> bool {
    forall|y: int, x: int| #![trigger g[y][x]]
        0 <= y < g.len() && 0 <= x < g[y].len() ==> 0 <= g[y][x] < bound
}

/// A partial dot product of `k` entry pairs drawn from `[0, ba)` and
/// `[0, bb)` lies in `[0, k * ba * bb]`.
proof fn lemma_dot_range(
    a: Seq<Seq<int>>,
    b: Seq<Seq<int>>,
    inner: int,
    h: int,
    out_w: int,
    x: int,
    y: int,
    k: nat,
    ba: int,
    bb: int,
)
    requires
        0 < ba,
        0 < bb,
        rect(a, inner, h),
        rect(b, out_w, inner),
        entries_in_range(a, ba),
        entries_in_range(b, bb),
        0 <= x < out_w,
        0 <= y < h,
        k <= inner,
    ensures
        0 <= dot(a, b, x, y, k) <= k * ba * bb,
    decreases k,
{
    if k > 0 {
        lemma_dot_range(a, b, inner, h, out_w, x, y, (k - 1) as nat, ba, bb);
        let av = a[y][k - 1];
        let bv = b[k - 1][x];
        assert(0 <= av < ba);
        assert(0 <= bv < bb);
        assert(0 <= av * bv && av * bv <= ba * bb && (k - 1) * ba * bb + ba * bb == k * ba
            * bb) by (nonlinear_arith)
            requires
                0 <= av < ba,
                0 <= bv < bb,
                k >= 1,
        ;
    }
}

/// Every partial dot product in the product of two matrices whose entries
/// lie in `[0, ba)` and `[0, bb)` fits the 64-bit scalar type, provided
/// the full dot product's worst case `inner * ba * bb` does.
pub proof fn lemma_dots_fit_from_range(
    a: Seq<Seq<int>>,
    b: Seq<Seq<int>>,
    inner: int,
    h: int,
    out_w: int,
    ba: int,
    bb: int,
)
    requires
        0 < ba,
        0 < bb,
        rect(a, inner, h),
        rect(b, out_w, inner),
        entries_in_range(a, ba),
        entries_in_range(b, bb),
        inner * ba * bb <= i64::MAX,
    ensures
        dots_fit_i64(a, b, out_w, inner as nat),
{
    assert forall|x: int, y: int, k: nat| 0 <= x < out_w && 0 <= y < a.len() && k
        <= inner as nat implies i64::MIN <= #[trigger] dot(a, b, x, y, k) <= i64::MAX by {
        lemma_dot_range(a, b, inner, h, out_w, x, y, k, ba, bb);
        assert(k * ba * bb <= inner * ba * bb) by (nonlinear_arith)
            requires
                0 <= k <= inner,
                0 < ba,
                0 < bb,
        ;
    }
}

/// Every entry of the product of two matrices whose entries lie in
/// `[0, ba)` and `[0, bb)` lies in `[0, inner * ba * bb]`.
pub proof fn lemma_mul_grid_range(
    a: Seq<Seq<int>>,
    b: Seq<Seq<int>>,
    inner: int,
    h: int,
    out_w: int,
    ba: int,
    bb: int,
)
    requires
        0 < ba,
        0 < bb,
        rect(a, inner, h),
        rect(b, out_w, inner),
        entries_in_range(a, ba),
        entries_in_range(b, bb),
    ensures
        forall|y: int, x: int|
            0 <= y < h && 0 <= x < out_w ==> 0 <= #[trigger] mul_grid(a, b, out_w, inner as nat)[y][x]
                <= inner * ba * bb,
{
    assert forall|y: int, x: int| 0 <= y < h && 0 <= x < out_w implies 0 <= #[trigger] mul_grid(
        a,
        b,
        out_w,
        inner as nat,
    )[y][x] <= inner * ba * bb by {
        lemma_dot_range(a, b, inner, h, out_w, x, y, inner as nat, ba, bb);
    }
}

/// Distinct (column, row) pairs occupy distinct row-major positions.
proof fn lemma_row_major_distinct(w: int, x1: int, y1: int, x2: int, y2: int)
    requires
        0 <= x1 < w,
        0 <= x2 < w,
        0 <= y1,
        0 <= y2,
        y1 * w + x1 == y2 * w + x2,
    ensures
        x1 == x2 && y1 == y2,
{
    assert(x1 == x2 && y1 == y2) by (nonlinear_arith)
        requires
            0 <= x1 < w,
            0 <= x2 < w,
            0 <= y1,
            0 <= y2,
            y1 * w + x1 == y2 * w + x2,
    ;
}

} // verus!
