//! A fixed-size two-dimensional array over one contiguous row-major
//! buffer, with dual row-major / column-major construction and traversal
//! and the two rotations the image tools use.

use vstd::arithmetic::div_mod::{
    lemma_div_pos_is_pos, lemma_fundamental_div_mod, lemma_mod_bound, lemma_multiply_divide_lt,
};
use vstd::prelude::*;

verus! {

/// A `width` by `height` grid stored row-major in one vector.
#[derive(Clone, Debug, PartialEq, Eq)]
pub struct Array2<T> {
    width: usize,
    height: usize,
    data: Vec<T>,
}

/// Both row and column indices of position `k` lie inside the grid, and
/// they recompose to `k`.
proof fn lemma_rc_bounds(w: int, h: int, k: int)
    requires
        w >= 0,
        h >= 0,
        0 <= k < w * h,
    ensures
        w >= 1,
        h >= 1,
        0 <= k % w < w,
        0 <= k / w < h,
        k == w * (k / w) + k % w,
{
    assert(w >= 1 && h >= 1) by (nonlinear_arith)
        requires
            0 <= k < w * h,
            w >= 0,
            h >= 0,
    ;
    lemma_mod_bound(k, w);
    lemma_fundamental_div_mod(k, w);
    lemma_div_pos_is_pos(k, w);
    lemma_multiply_divide_lt(k, w, h);
}

/// A row-column pair addresses one cell of the grid, whichever of the two
/// orders it is combined in.
proof fn lemma_cross_index(w: int, h: int, r: int, c: int)
    requires
        0 <= r < h,
        0 <= c < w,
    ensures
        0 <= c * h + r < w * h,
        0 <= r * w + c < w * h,
{
    assert(0 <= c * h + r < w * h && 0 <= r * w + c < w * h) by (nonlinear_arith)
        requires
            0 <= r < h,
            0 <= c < w,
    ;
}

impl<T: Copy> Array2<T> {
    /// The stored buffer holds exactly one element per grid cell.
    pub closed spec fn wf(&self) -> bool {
        self.data@.len() == self.width * self.height
    }

    /// The grid's elements, row-major.
    pub closed spec fn view(&self) -> Seq<T> {
        self.data@
    }

    /// The grid's width, for contracts.
    pub closed spec fn spec_width(&self) -> int {
        self.width as int
    }

    /// The grid's height, for contracts.
    pub closed spec fn spec_height(&self) -> int {
        self.height as int
    }

    /// A new grid with every element set to `val`.
    pub fn new(width: usize, height: usize, val: T) -> (a: Self)
        requires
            width * height <= usize::MAX,
        ensures
            a.wf(),
            a.spec_width() == width,
            a.spec_height() == height,
            forall|k: int| 0 <= k < a.view().len() ==> a.view()[k] == val,
    {
        proof {
            vstd::arithmetic::mul::lemma_mul_nonnegative(width as int, height as int);
        }
        let total: usize = width * height;
        let mut data: Vec<T> = Vec::new();
        while data.len() < total
            invariant
                data@.len() <= total,
                forall|k: int| 0 <= k < data@.len() ==> data@[k] == val,
            decreases total - data@.len(),
        {
            data.push(val);
        }
        Array2 { width, height, data }
    }

    /// A grid over an existing row-major vector; rejected when the vector's
    /// length does not match the dimensions.
    pub fn from_shape_vec(width: usize, height: usize, vec: Vec<T>) -> (r: Result<
        Self,
        &'static str,
    >)
        ensures
            r is Ok <==> vec@.len() == width * height,
            r is Ok ==> r->Ok_0.wf() && r->Ok_0.spec_width() == width && r->Ok_0.spec_height()
                == height && r->Ok_0.view() == vec@,
    {
        proof {
            vstd::arithmetic::mul::lemma_mul_nonnegative(width as int, height as int);
            if width != 0 {
                lemma_mul_le_max(width as int, height as int, usize::MAX as int);
            }
        }
        let n: usize = vec.len();
        if width != 0 && height > usize::MAX / width {
            return Err("Vector size does not match the specified dimensions.");
        }
        let total: usize = width * height;
        if n != total {
            return Err("Vector size does not match the specified dimensions.");
        }
        Ok(Array2 { width, height, data: vec })
    }

    /// A grid over a row-major vector; rejected when the vector's length
    /// does not match the dimensions.
    pub fn from_row_major(width: usize, height: usize, values: Vec<T>) -> (r: Result<
        Self,
        &'static str,
    >)
        ensures
            r is Ok <==> values@.len() == width * height,
            r is Ok ==> r->Ok_0.wf() && r->Ok_0.spec_width() == width && r->Ok_0.spec_height()
                == height && r->Ok_0.view() == values@,
    {
        Self::from_shape_vec(width, height, values)
    }

    /// A grid filled from a column-major vector; rejected when the
    /// vector's length does not match the dimensions.  Cell `(c, r)` of
    /// the grid takes element `c * height + r` of the vector.
    pub fn from_col_major(width: usize, height: usize, values: Vec<T>) -> (r: Result<
        Self,
        &'static str,
    >)
        ensures
            r is Ok <==> values@.len() == width * height,
            r is Ok ==> r->Ok_0.wf() && r->Ok_0.spec_width() == width && r->Ok_0.spec_height()
                == height,
            r is Ok ==> forall|k: int|
                0 <= k < width * height ==> #[trigger] r->Ok_0.view()[k] == values@[(k % (
                width as int)) * height + k / (width as int)],
    {
        proof {
            vstd::arithmetic::mul::lemma_mul_nonnegative(width as int, height as int);
            if width != 0 {
                lemma_mul_le_max(width as int, height as int, usize::MAX as int);
            }
        }
        let n: usize = values.len();
        if width != 0 && height > usize::MAX / width {
            return Err("Vector size does not match the specified dimensions.");
        }
        let total: usize = width * height;
        if n != total {
            return Err("Vector size does not match the specified dimensions.");
        }
        let ghost target = Seq::new(
            (width * height) as nat,
            |k: int| values@[(k % (width as int)) * height + k / (width as int)],
        );
        let mut data: Vec<T> = Vec::new();
        let mut k: usize = 0;
        while k < total
            invariant
                0 <= k <= total,
                total == width * height,
                values@.len() == total,
                target == Seq::new(
                    (width * height) as nat,
                    |j: int| values@[(j % (width as int)) * height + j / (width as int)],
                ),
                data@ == target.take(k as int),
            decreases total - k,
        {
            proof {
                lemma_rc_bounds(width as int, height as int, k as int);
                lemma_cross_index(
                    width as int,
                    height as int,
                    k as int / width as int,
                    k as int % width as int,
                );
                assert(target.take(k + 1) =~= target.take(k as int).push(target[k as int]));
            }
            let c: usize = k % width;
            let r: usize = k / width;
            data.push(values[c * height + r]);
            k = k + 1;
        }
        proof {
            assert(data@ =~= target);
        }
        Ok(Array2 { width, height, data })
    }

    /// The height.
    pub fn height(&self) -> (h: usize)
        ensures
            h == self.spec_height(),
    {
        self.height
    }

    /// The width.
    pub fn width(&self) -> (w: usize)
        ensures
            w == self.spec_width(),
    {
        self.width
    }

    /// The row-major index of the cell at column `c`, row `r`, when both
    /// are in bounds.
    fn get_index(&self, c: usize, r: usize) -> (idx: Option<usize>)
        requires
            self.wf(),
        ensures
            idx is Some <==> c < self.spec_width() && r < self.spec_height(),
            idx is Some ==> idx->0 == r * self.spec_width() + c && idx->0 < self.view().len(),
    {
        if c < self.width && r < self.height {
            proof {
                vstd::std_specs::vec::axiom_spec_len(&self.data);
                lemma_cross_index(self.width as int, self.height as int, r as int, c as int);
            }
            Some(r * self.width + c)
        } else {
            None
        }
    }

    /// A reference to the element at column `c`, row `r`, or `None` when
    /// either index is out of bounds.
    pub fn get(&self, c: usize, r: usize) -> (el: Option<&T>)
        requires
            self.wf(),
        ensures
            el is Some <==> c < self.spec_width() && r < self.spec_height(),
            el is Some ==> *el->0 == self.view()[r * self.spec_width() + c],
    {
        match self.get_index(c, r) {
            Some(idx) => Some(&self.data[idx]),
            None => None,
        }
    }

    /// A mutable reference to the element at column `c`, row `r`.  The
    /// indices must be in bounds; writes through the reference land at
    /// exactly that cell.
    pub fn get_mut(&mut self, c: usize, r: usize) -> (el: &mut T)
        requires
            old(self).wf(),
            c < old(self).spec_width(),
            r < old(self).spec_height(),
        ensures
            *el == old(self).view()[r * old(self).spec_width() + c],
            final(self).view() == old(self).view().update(
                r * old(self).spec_width() + c,
                *final(el),
            ),
            final(self).wf(),
            final(self).spec_width() == old(self).spec_width(),
            final(self).spec_height() == old(self).spec_height(),
    {
        proof {
            vstd::std_specs::vec::axiom_spec_len(&self.data);
            lemma_cross_index(self.width as int, self.height as int, r as int, c as int);
        }
        let idx: usize = r * self.width + c;
        &mut self.data[idx]
    }

    /// Every element with its column and row, in row-major order.
    pub fn iter_row_major(&self) -> (items: Vec<(usize, usize, T)>)
        requires
            self.wf(),
        ensures
            items@.len() == self.view().len(),
            forall|k: int|
                0 <= k < items@.len() ==> #[trigger] items@[k] == (
                ((k % self.spec_width()) as usize),
                ((k / self.spec_width()) as usize),
                self.view()[k],
            ),
    {
        let ghost target = Seq::new(
            self.view().len(),
            |k: int|
                (
                    ((k % self.spec_width()) as usize),
                    ((k / self.spec_width()) as usize),
                    self.view()[k],
                ),
        );
        let mut items: Vec<(usize, usize, T)> = Vec::new();
        let mut k: usize = 0;
        while k < self.data.len()
            invariant
                0 <= k <= self.view().len(),
                self.wf(),
                target == Seq::new(
                    self.view().len(),
                    |j: int|
                        (
                            ((j % self.spec_width()) as usize),
                            ((j / self.spec_width()) as usize),
                            self.view()[j],
                        ),
                ),
                items@ == target.take(k as int),
            decreases self.view().len() - k,
        {
            proof {
                lemma_rc_bounds(self.width as int, self.height as int, k as int);
                assert(target.take(k + 1) =~= target.take(k as int).push(target[k as int]));
            }
            let c: usize = k % self.width;
            let r: usize = k / self.width;
            items.push((c, r, self.data[k]));
            k = k + 1;
        }
        proof {
            assert(items@ =~= target);
        }
        items
    }

    /// Every element with its column and row, in column-major order.
    pub fn iter_col_major(&self) -> (items: Vec<(usize, usize, T)>)
        requires
            self.wf(),
        ensures
            items@.len() == self.view().len(),
            forall|k: int|
                0 <= k < items@.len() ==> #[trigger] items@[k] == (
                ((k / self.spec_height()) as usize),
                ((k % self.spec_height()) as usize),
                self.view()[(k % self.spec_height()) * self.spec_width() + k
                    / self.spec_height()],
            ),
    {
        let ghost target = Seq::new(
            self.view().len(),
            |k: int|
                (
                    ((k / self.spec_height()) as usize),
                    ((k % self.spec_height()) as usize),
                    self.view()[(k % self.spec_height()) * self.spec_width() + k
                        / self.spec_height()],
                ),
        );
        let mut items: Vec<(usize, usize, T)> = Vec::new();
        let mut k: usize = 0;
        while k < self.data.len()
            invariant
                0 <= k <= self.view().len(),
                self.wf(),
                target == Seq::new(
                    self.view().len(),
                    |j: int|
                        (
                            ((j / self.spec_height()) as usize),
                            ((j % self.spec_height()) as usize),
                            self.view()[(j % self.spec_height()) * self.spec_width() + j
                                / self.spec_height()],
                        ),
                ),
                items@ == target.take(k as int),
            decreases self.view().len() - k,
        {
            proof {
                assert(self.spec_height() * self.spec_width() == self.spec_width()
                    * self.spec_height()) by (nonlinear_arith);
                lemma_rc_bounds(self.height as int, self.width as int, k as int);
                lemma_cross_index(
                    self.width as int,
                    self.height as int,
                    k as int % self.height as int,
                    k as int / self.height as int,
                );
                assert(target.take(k + 1) =~= target.take(k as int).push(target[k as int]));
            }
            let c: usize = k / self.height;
            let r: usize = k % self.height;
            items.push((c, r, self.data[r * self.width + c]));
            k = k + 1;
        }
        proof {
            assert(items@ =~= target);
        }
        items
    }

    /// The grid rotated a quarter turn clockwise: the cell at column `c`,
    /// row `r` moves to column `height - 1 - r`, row `c` of a grid with
    /// the dimensions swapped.
    pub fn rotate90(&self) -> (a: Array2<T>)
        requires
            self.wf(),
            self.view().len() >= 1,
        ensures
            a.wf(),
            a.spec_width() == self.spec_height(),
            a.spec_height() == self.spec_width(),
            forall|k: int|
                0 <= k < a.view().len() ==> #[trigger] a.view()[k] == self.view()[(
                self.spec_height() - 1 - k % self.spec_height()) * self.spec_width() + k
                    / self.spec_height()],
    {
        let ghost target = Seq::new(
            self.view().len(),
            |k: int|
                self.view()[(self.spec_height() - 1 - k % self.spec_height())
                    * self.spec_width() + k / self.spec_height()],
        );
        let mut data: Vec<T> = Vec::new();
        let mut k: usize = 0;
        let total: usize = self.data.len();
        while k < total
            invariant
                0 <= k <= self.view().len(),
                self.wf(),
                total == self.view().len(),
                target == Seq::new(
                    self.view().len(),
                    |j: int|
                        self.view()[(self.spec_height() - 1 - j % self.spec_height())
                            * self.spec_width() + j / self.spec_height()],
                ),
                data@ == target.take(k as int),
            decreases self.view().len() - k,
        {
            proof {
                assert(self.spec_height() * self.spec_width() == self.spec_width()
                    * self.spec_height()) by (nonlinear_arith);
                lemma_rc_bounds(self.height as int, self.width as int, k as int);
                lemma_cross_index(
                    self.width as int,
                    self.height as int,
                    self.height as int - 1 - k as int % self.height as int,
                    k as int / self.height as int,
                );
                assert(target.take(k + 1) =~= target.take(k as int).push(target[k as int]));
            }
            let c2: usize = k % self.height;
            let r2: usize = k / self.height;
            data.push(self.data[(self.height - 1 - c2) * self.width + r2]);
            k = k + 1;
        }
        proof {
            assert(data@ =~= target);
            assert(self.spec_height() * self.spec_width() == self.spec_width()
                * self.spec_height()) by (nonlinear_arith);
        }
        Array2 { width: self.height, height: self.width, data }
    }

    /// The grid rotated a half turn: the cell at column `c`, row `r`
    /// moves to column `width - 1 - c`, row `height - 1 - r`.
    pub fn rotate180(&self) -> (a: Array2<T>)
        requires
            self.wf(),
        ensures
            a.wf(),
            a.spec_width() == self.spec_width(),
            a.spec_height() == self.spec_height(),
            forall|k: int|
                0 <= k < a.view().len() ==> #[trigger] a.view()[k] == self.view()[(
                self.spec_height() - 1 - k / self.spec_width()) * self.spec_width() + (
                self.spec_width() - 1 - k % self.spec_width())],
    {
        let ghost target = Seq::new(
            self.view().len(),
            |k: int|
                self.view()[(self.spec_height() - 1 - k / self.spec_width())
                    * self.spec_width() + (self.spec_width() - 1 - k % self.spec_width())],
        );
        let mut data: Vec<T> = Vec::new();
        let mut k: usize = 0;
        let total: usize = self.data.len();
        while k < total
            invariant
                0 <= k <= self.view().len(),
                self.wf(),
                total == self.view().len(),
                target == Seq::new(
                    self.view().len(),
                    |j: int|
                        self.view()[(self.spec_height() - 1 - j / self.spec_width())
                            * self.spec_width() + (self.spec_width() - 1 - j
                            % self.spec_width())],
                ),
                data@ == target.take(k as int),
            decreases self.view().len() - k,
        {
            proof {
                lemma_rc_bounds(self.width as int, self.height as int, k as int);
                lemma_cross_index(
                    self.width as int,
                    self.height as int,
                    self.height as int - 1 - k as int / self.width as int,
                    self.width as int - 1 - k as int % self.width as int,
                );
                assert(target.take(k + 1) =~= target.take(k as int).push(target[k as int]));
            }
            let c: usize = k % self.width;
            let r: usize = k / self.width;
            data.push(self.data[(self.height - 1 - r) * self.width + (self.width - 1 - c)]);
            k = k + 1;
        }
        proof {
            assert(data@ =~= target);
        }
        Array2 { width: self.width, height: self.height, data }
    }
}

/// With a positive width, the product stays inside the machine exactly
/// when the height stays inside the quotient.
proof fn lemma_mul_le_max(w: int, h: int, m: int)
    requires
        w >= 1,
        h >= 0,
        m >= 0,
    ensures
        h <= m / w <==> w * h <= m,
{
    lemma_fundamental_div_mod(m, w);
    lemma_mod_bound(m, w);
    lemma_div_pos_is_pos(m, w);
    let q = m / w;
    if h <= q {
        assert(w * h <= w * q) by (nonlinear_arith)
            requires
                h <= q,
                w >= 1,
        ;
    }
    if w * h <= m {
        vstd::arithmetic::div_mod::lemma_div_multiples_vanish(h, w);
        vstd::arithmetic::div_mod::lemma_div_is_ordered(w * h, m, w);
    }
}

} // verus!
