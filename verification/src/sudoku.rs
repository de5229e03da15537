//! A second, simpler two-dimensional array, carrying the Sudoku checks:
//! row, column and subgrid validity through a caller-supplied conversion
//! of elements to digits.
//!
//! The conversion is an arbitrary closure, so each check's contract names
//! a digit sequence consistent with the closure's own postcondition and
//! states the verdict exactly over that sequence: every cell must give a
//! digit from 1 to 9, no digit may repeat inside a group.

use vstd::arithmetic::div_mod::{
    lemma_div_pos_is_pos, lemma_fundamental_div_mod, lemma_mod_bound, lemma_multiply_divide_lt,
};
use vstd::prelude::*;
use vstd::std_specs::cmp::PartialEqSpec;

verus! {

/// A `width` by `height` grid stored row-major in one vector.
#[derive(Clone, Debug, PartialEq, Eq)]
pub struct Array2<T> {
    width: usize,
    height: usize,
    elements: Vec<T>,
}

/// A digit group is valid when every entry is a digit from 1 to 9 and no
/// two entries are equal.
pub open spec fn group_ok(vals: Seq<Option<usize>>) -> bool {
    (forall|i: int| 0 <= i < vals.len() ==> (#[trigger] vals[i]) is Some && 1 <= vals[i]->0 <= 9)
        && (forall|i: int, j: int| 0 <= i < j < vals.len() ==> vals[i] != vals[j])
}

/// The verdict `ok` of one group of cells `idxs` is witnessed by some
/// digit sequence that the conversion closure can return for those cells.
pub open spec fn group_witness<T: Copy + PartialEq, F: Fn(&T) -> Option<usize>>(
    grid: Array2<T>,
    f: F,
    idxs: Seq<int>,
    ok: bool,
) -> bool {
    exists|vals: Seq<Option<usize>>|
        vals.len() == idxs.len() && (forall|j: int|
            0 <= j < idxs.len() ==> call_ensures(f, (&grid.view()[idxs[j]],), #[trigger] vals[j]))
            && ok == group_ok(vals)
}

/// The cell indices of row `row`.
pub open spec fn row_idxs(width: int, row: int) -> Seq<int> {
    Seq::new(width as nat, |j: int| row * width + j)
}

/// The cell indices of column `col`.
pub open spec fn col_idxs(width: int, height: int, col: int) -> Seq<int> {
    Seq::new(height as nat, |i: int| i * width + col)
}

/// The cell indices of the 3-by-3 subgrid whose top-left corner is at
/// `(row, col)`, in raster order.
pub open spec fn subgrid_idxs(width: int, row: int, col: int) -> Seq<int> {
    Seq::new(9, |k: int| (row + k / 3) * width + (col + k % 3))
}

/// Decide whether a collected digit group is valid: every entry a digit
/// from 1 to 9, no repeats.
fn group_valid(vals: &Vec<Option<usize>>) -> (r: bool)
    ensures
        r == group_ok(vals@),
{
    let mut seen: Vec<bool> = Vec::new();
    while seen.len() < 10
        invariant
            seen@.len() <= 10,
            forall|d: int| 0 <= d < seen@.len() ==> !seen@[d],
        decreases 10 - seen@.len(),
    {
        seen.push(false);
    }
    let mut j: usize = 0;
    while j < vals.len()
        invariant
            0 <= j <= vals@.len(),
            seen@.len() == 10,
            forall|i: int|
                0 <= i < j ==> (#[trigger] vals@[i]) is Some && 1 <= vals@[i]->0 <= 9,
            forall|i1: int, i2: int| 0 <= i1 < i2 < j ==> vals@[i1] != vals@[i2],
            forall|d: int|
                1 <= d <= 9 ==> (#[trigger] seen@[d] == exists|i: int|
                    0 <= i < j && vals@[i] == Some(d as usize)),
            forall|d: int| 0 <= d < 1 ==> !(#[trigger] seen@[d]),
        decreases vals@.len() - j,
    {
        match vals[j] {
            Some(v) => {
                if v < 1 || v > 9 {
                    return false;
                }
                if seen[v] {
                    proof {
                        let i0 = choose|i: int| 0 <= i < j && vals@[i] == Some(v);
                        assert(vals@[i0] == vals@[j as int]);
                    }
                    return false;
                }
                seen.set(v, true);
            },
            None => {
                return false;
            },
        }
        j = j + 1;
    }
    true
}

impl<T: Copy + PartialEq> Array2<T> {
    /// The stored buffer holds exactly one element per grid cell.
    pub closed spec fn wf(&self) -> bool {
        self.elements@.len() == self.width * self.height
    }

    /// The grid's elements, row-major.
    pub closed spec fn view(&self) -> Seq<T> {
        self.elements@
    }

    /// The grid's width, for contracts.
    pub closed spec fn spec_width(&self) -> int {
        self.width as int
    }

    /// The grid's height, for contracts.
    pub closed spec fn spec_height(&self) -> int {
        self.height as int
    }

    /// A grid over a row-major vector of `rows * cols` elements.
    pub fn new(elements: Vec<T>, rows: usize, cols: usize) -> (a: Self)
        requires
            elements@.len() == rows * cols,
        ensures
            a.wf(),
            a.spec_width() == cols,
            a.spec_height() == rows,
            a.view() == elements@,
    {
        proof {
            assert(cols as int * rows as int == rows as int * cols as int) by (nonlinear_arith);
        }
        Array2 { width: cols, height: rows, elements }
    }

    /// The underlying row-major elements.
    pub fn elements(&self) -> (e: &Vec<T>)
        ensures
            e@ == self.view(),
    {
        &self.elements
    }

    /// The width.
    pub fn width(&self) -> (w: &usize)
        ensures
            *w == self.spec_width(),
    {
        &self.width
    }

    /// The height.
    pub fn height(&self) -> (h: &usize)
        ensures
            *h == self.spec_height(),
    {
        &self.height
    }

    /// A grid filled from a column-major vector of `width * height`
    /// elements: cell `(c, r)` takes element `c * height + r`.
    pub fn from_col_major(elements: Vec<T>, width: usize, height: usize) -> (a: Self)
        requires
            elements@.len() == width * height,
        ensures
            a.wf(),
            a.spec_width() == width,
            a.spec_height() == height,
            forall|k: int|
                0 <= k < width * height ==> #[trigger] a.view()[k] == elements@[(k % (
                width as int)) * height + k / (width as int)],
    {
        let n: usize = elements.len();
        let ghost target = Seq::new(
            (width * height) as nat,
            |k: int| elements@[(k % (width as int)) * height + k / (width as int)],
        );
        let mut data: Vec<T> = Vec::new();
        let mut k: usize = 0;
        while k < n
            invariant
                0 <= k <= n,
                n == width * height,
                elements@.len() == n,
                target == Seq::new(
                    (width * height) as nat,
                    |j: int| elements@[(j % (width as int)) * height + j / (width as int)],
                ),
                data@ == target.take(k as int),
            decreases n - k,
        {
            proof {
                lemma_rc_bounds(width as int, height as int, k as int);
                lemma_cross_index(
                    width as int,
                    height as int,
                    k as int / width as int,
                    k as int % width as int,
                );
                assert(target.take(k + 1) =~= target.take(k as int).push(target[k as int]));
            }
            let c: usize = k % width;
            let r: usize = k / width;
            data.push(elements[c * height + r]);
            k = k + 1;
        }
        proof {
            assert(data@ =~= target);
        }
        Array2 { width, height, elements: data }
    }

    /// A grid over a row-major vector of `width * height` elements.
    pub fn from_row_major(elements: Vec<T>, width: usize, height: usize) -> (a: Self)
        requires
            elements@.len() == width * height,
        ensures
            a.wf(),
            a.spec_width() == width,
            a.spec_height() == height,
            a.view() == elements@,
    {
        Array2 { width, height, elements }
    }

    /// The elements in row-major order.
    pub fn iter_row_major(&self) -> (items: Vec<T>)
        requires
            self.wf(),
        ensures
            items@ == self.view(),
    {
        let mut items: Vec<T> = Vec::new();
        let mut k: usize = 0;
        while k < self.elements.len()
            invariant
                0 <= k <= self.view().len(),
                items@ == self.view().take(k as int),
            decreases self.view().len() - k,
        {
            proof {
                assert(self.view().take(k + 1) =~= self.view().take(k as int).push(
                    self.view()[k as int],
                ));
            }
            items.push(self.elements[k]);
            k = k + 1;
        }
        proof {
            assert(items@ =~= self.view());
        }
        items
    }

    /// The elements in column-major order: position `k` of the result is
    /// the element at column `k / height`, row `k % height`.
    pub fn iter_col_major(&self) -> (items: Vec<T>)
        requires
            self.wf(),
        ensures
            items@.len() == self.view().len(),
            forall|k: int|
                0 <= k < items@.len() ==> #[trigger] items@[k] == self.view()[(k
                    % self.spec_height()) * self.spec_width() + k / self.spec_height()],
    {
        let ghost target = Seq::new(
            self.view().len(),
            |k: int|
                self.view()[(k % self.spec_height()) * self.spec_width() + k
                    / self.spec_height()],
        );
        let mut items: Vec<T> = Vec::new();
        let mut k: usize = 0;
        while k < self.elements.len()
            invariant
                0 <= k <= self.view().len(),
                self.wf(),
                target == Seq::new(
                    self.view().len(),
                    |j: int|
                        self.view()[(j % self.spec_height()) * self.spec_width() + j
                            / self.spec_height()],
                ),
                items@ == target.take(k as int),
            decreases self.view().len() - k,
        {
            proof {
                assert(self.spec_height() * self.spec_width() == self.spec_width()
                    * self.spec_height()) by (nonlinear_arith);
                lemma_rc_bounds(self.height as int, self.width as int, k as int);
                lemma_cross_index(
                    self.width as int,
                    self.height as int,
                    k as int % self.height as int,
                    k as int / self.height as int,
                );
                assert(target.take(k + 1) =~= target.take(k as int).push(target[k as int]));
            }
            let c: usize = k / self.height;
            let r: usize = k % self.height;
            items.push(self.elements[r * self.width + c]);
            k = k + 1;
        }
        proof {
            assert(items@ =~= target);
        }
        items
    }

    /// The position `(row, col)` of the first element equal to `target`
    /// in row-major order, or `None` when no element matches.  The answer
    /// is exact whenever the element type's equality obeys its
    /// specification.
    pub fn find_element(&self, target: &T) -> (r: Option<(usize, usize)>)
        requires
            self.wf(),
        ensures
            T::obeys_eq_spec() ==> ((r is Some) <==> exists|k: int|
                0 <= k < self.view().len() && (#[trigger] self.view()[k]).eq_spec(target)),
            T::obeys_eq_spec() && r is Some ==> {
                let k = ((r->0).0 as int) * self.spec_width() + (r->0).1;
                &&& (r->0).0 < self.spec_height()
                &&& (r->0).1 < self.spec_width()
                &&& 0 <= k < self.view().len()
                &&& self.view()[k].eq_spec(target)
                &&& forall|j: int| 0 <= j < k ==> !(#[trigger] self.view()[j]).eq_spec(target)
            },
    {
        let mut i: usize = 0;
        while i < self.height
            invariant
                0 <= i <= self.spec_height(),
                self.wf(),
                T::obeys_eq_spec() ==> forall|j: int|
                    0 <= j < i * self.spec_width() ==> !(#[trigger] self.view()[j]).eq_spec(
                        target,
                    ),
            decreases self.spec_height() - i,
        {
            let mut j: usize = 0;
            while j < self.width
                invariant
                    0 <= i < self.spec_height(),
                    0 <= j <= self.spec_width(),
                    self.wf(),
                    T::obeys_eq_spec() ==> forall|p: int|
                        0 <= p < i * self.spec_width() + j ==> !(#[trigger] self.view()[p]).eq_spec(
                            target,
                        ),
                decreases self.spec_width() - j,
            {
                proof {
                    lemma_cross_index(
                        self.width as int,
                        self.height as int,
                        i as int,
                        j as int,
                    );
                    vstd::std_specs::vec::axiom_spec_len(&self.elements);
                }
                let hit: bool = self.elements[i * self.width + j] == *target;
                if hit {
                    proof {
                        if T::obeys_eq_spec() {
                            assert(self.view()[i as int * self.spec_width() + j as int].eq_spec(
                                target,
                            ));
                        }
                    }
                    return Some((i, j));
                }
                j = j + 1;
            }
            proof {
                assert((i + 1) * self.spec_width() == i * self.spec_width()
                    + self.spec_width()) by (nonlinear_arith);
            }
            i = i + 1;
        }
        proof {
            if T::obeys_eq_spec() {
                assert forall|k: int| 0 <= k < self.view().len() implies !(
                #[trigger] self.view()[k]).eq_spec(target) by {
                    assert(self.spec_height() * self.spec_width() == self.spec_width()
                        * self.spec_height()) by (nonlinear_arith);
                }
            }
        }
        None
    }

    /// Whether row `row` is a valid Sudoku group under the given
    /// conversion of elements to digits.
    pub fn valid_row<F: Fn(&T) -> Option<usize>>(&self, row: usize, to_usize: F) -> (r: bool)
        requires
            self.wf(),
            row < self.spec_height(),
            forall|t: &T| #[trigger] call_requires(to_usize, (t,)),
        ensures
            group_witness(*self, to_usize, row_idxs(self.spec_width(), row as int), r),
    {
        let ghost idxs = row_idxs(self.spec_width(), row as int);
        let mut vals: Vec<Option<usize>> = Vec::new();
        let mut j: usize = 0;
        while j < self.width
            invariant
                0 <= j <= self.spec_width(),
                self.wf(),
                row < self.spec_height(),
                forall|t: &T| #[trigger] call_requires(to_usize, (t,)),
                vals@.len() == j,
                forall|p: int|
                    0 <= p < j ==> call_ensures(
                        to_usize,
                        (&self.view()[row * self.spec_width() + p],),
                        #[trigger] vals@[p],
                    ),
            decreases self.spec_width() - j,
        {
            proof {
                lemma_cross_index(self.width as int, self.height as int, row as int, j as int);
                vstd::std_specs::vec::axiom_spec_len(&self.elements);
            }
            let v: Option<usize> = to_usize(&self.elements[row * self.width + j]);
            vals.push(v);
            j = j + 1;
        }
        let ok: bool = group_valid(&vals);
        proof {
            assert forall|p: int| 0 <= p < idxs.len() implies call_ensures(
                to_usize,
                (&self.view()[idxs[p]],),
                #[trigger] vals@[p],
            ) by {
                assert(idxs[p] == row * self.spec_width() + p);
            }
        }
        ok
    }

    /// Whether column `col` is a valid Sudoku group under the given
    /// conversion of elements to digits.
    pub fn valid_col<F: Fn(&T) -> Option<usize>>(&self, col: usize, to_usize: F) -> (r: bool)
        requires
            self.wf(),
            col < self.spec_width(),
            forall|t: &T| #[trigger] call_requires(to_usize, (t,)),
        ensures
            group_witness(
                *self,
                to_usize,
                col_idxs(self.spec_width(), self.spec_height(), col as int),
                r,
            ),
    {
        let ghost idxs = col_idxs(self.spec_width(), self.spec_height(), col as int);
        let mut vals: Vec<Option<usize>> = Vec::new();
        let mut i: usize = 0;
        while i < self.height
            invariant
                0 <= i <= self.spec_height(),
                self.wf(),
                col < self.spec_width(),
                forall|t: &T| #[trigger] call_requires(to_usize, (t,)),
                vals@.len() == i,
                forall|p: int|
                    0 <= p < i ==> call_ensures(
                        to_usize,
                        (&self.view()[p * self.spec_width() + col],),
                        #[trigger] vals@[p],
                    ),
            decreases self.spec_height() - i,
        {
            proof {
                lemma_cross_index(self.width as int, self.height as int, i as int, col as int);
                vstd::std_specs::vec::axiom_spec_len(&self.elements);
            }
            let v: Option<usize> = to_usize(&self.elements[i * self.width + col]);
            vals.push(v);
            i = i + 1;
        }
        let ok: bool = group_valid(&vals);
        proof {
            assert forall|p: int| 0 <= p < idxs.len() implies call_ensures(
                to_usize,
                (&self.view()[idxs[p]],),
                #[trigger] vals@[p],
            ) by {
                assert(idxs[p] == p * self.spec_width() + col);
            }
        }
        ok
    }

    /// Whether the 3-by-3 subgrid with top-left corner `(row, col)` is a
    /// valid Sudoku group under the given conversion of elements to
    /// digits.
    pub fn valid_subgrid<F: Fn(&T) -> Option<usize>>(
        &self,
        row: usize,
        col: usize,
        to_usize: F,
    ) -> (r: bool)
        requires
            self.wf(),
            row + 3 <= self.spec_height(),
            col + 3 <= self.spec_width(),
            forall|t: &T| #[trigger] call_requires(to_usize, (t,)),
        ensures
            group_witness(
                *self,
                to_usize,
                subgrid_idxs(self.spec_width(), row as int, col as int),
                r,
            ),
    {
        let ghost idxs = subgrid_idxs(self.spec_width(), row as int, col as int);
        let mut vals: Vec<Option<usize>> = Vec::new();
        let mut k: usize = 0;
        while k < 9
            invariant
                0 <= k <= 9,
                self.wf(),
                row + 3 <= self.spec_height(),
                col + 3 <= self.spec_width(),
                forall|t: &T| #[trigger] call_requires(to_usize, (t,)),
                vals@.len() == k,
                forall|p: int|
                    0 <= p < k ==> call_ensures(
                        to_usize,
                        (&self.view()[(row + p / 3) * self.spec_width() + (col + p % 3)],),
                        #[trigger] vals@[p],
                    ),
            decreases 9 - k,
        {
            proof {
                lemma_mod_bound(k as int, 3);
                lemma_fundamental_div_mod(k as int, 3);
                lemma_div_pos_is_pos(k as int, 3);
                lemma_multiply_divide_lt(k as int, 3, 3);
                lemma_cross_index(
                    self.width as int,
                    self.height as int,
                    row as int + k as int / 3,
                    col as int + k as int % 3,
                );
                vstd::std_specs::vec::axiom_spec_len(&self.elements);
            }
            let v: Option<usize> = to_usize(
                &self.elements[(row + k / 3) * self.width + (col + k % 3)],
            );
            vals.push(v);
            k = k + 1;
        }
        let ok: bool = group_valid(&vals);
        proof {
            assert forall|p: int| 0 <= p < idxs.len() implies call_ensures(
                to_usize,
                (&self.view()[idxs[p]],),
                #[trigger] vals@[p],
            ) by {
                assert(idxs[p] == (row + p / 3) * self.spec_width() + (col + p % 3));
            }
        }
        ok
    }

    /// Whether the whole 9-by-9 grid is a valid Sudoku under the given
    /// conversion of elements to digits: a true answer carries a valid
    /// witness for every row, column and subgrid; a false answer carries
    /// an invalid witness for some group.
    pub fn valid_sudoku<F: Fn(&T) -> Option<usize> + Copy>(&self, to_usize: F) -> (r: bool)
        requires
            self.wf(),
            self.spec_width() == 9,
            self.spec_height() == 9,
            forall|t: &T| #[trigger] call_requires(to_usize, (t,)),
        ensures
            r ==> forall|g: int|
                0 <= g < 9 ==> group_witness(*self, to_usize, #[trigger] row_idxs(9, g), true)
                    && group_witness(*self, to_usize, col_idxs(9, 9, g), true)
                    && group_witness(
                    *self,
                    to_usize,
                    subgrid_idxs(9, 3 * (g / 3), 3 * (g % 3)),
                    true,
                ),
            !r ==> exists|g: int|
                0 <= g < 9 && (group_witness(*self, to_usize, #[trigger] row_idxs(9, g), false)
                    || group_witness(*self, to_usize, col_idxs(9, 9, g), false)
                    || group_witness(
                    *self,
                    to_usize,
                    subgrid_idxs(9, 3 * (g / 3), 3 * (g % 3)),
                    false,
                )),
    {
        let mut g: usize = 0;
        while g < 9
            invariant
                0 <= g <= 9,
                self.wf(),
                self.spec_width() == 9,
                self.spec_height() == 9,
                forall|t: &T| #[trigger] call_requires(to_usize, (t,)),
                forall|p: int|
                    0 <= p < g ==> group_witness(*self, to_usize, #[trigger] row_idxs(9, p), true),
            decreases 9 - g,
        {
            if !self.valid_row(g, to_usize) {
                return false;
            }
            g = g + 1;
        }
        let mut g2: usize = 0;
        while g2 < 9
            invariant
                0 <= g2 <= 9,
                self.wf(),
                self.spec_width() == 9,
                self.spec_height() == 9,
                forall|t: &T| #[trigger] call_requires(to_usize, (t,)),
                forall|p: int|
                    0 <= p < 9 ==> group_witness(*self, to_usize, #[trigger] row_idxs(9, p), true),
                forall|p: int|
                    0 <= p < g2 ==> group_witness(
                        *self,
                        to_usize,
                        #[trigger] col_idxs(9, 9, p),
                        true,
                    ),
            decreases 9 - g2,
        {
            if !self.valid_col(g2, to_usize) {
                proof {
                    assert(row_idxs(9, g2 as int).len() == 9);
                }
                return false;
            }
            g2 = g2 + 1;
        }
        let mut g3: usize = 0;
        while g3 < 9
            invariant
                0 <= g3 <= 9,
                self.wf(),
                self.spec_width() == 9,
                self.spec_height() == 9,
                forall|t: &T| #[trigger] call_requires(to_usize, (t,)),
                forall|p: int|
                    0 <= p < 9 ==> group_witness(*self, to_usize, #[trigger] row_idxs(9, p), true),
                forall|p: int|
                    0 <= p < 9 ==> group_witness(
                        *self,
                        to_usize,
                        #[trigger] col_idxs(9, 9, p),
                        true,
                    ),
                forall|p: int|
                    0 <= p < g3 ==> group_witness(
                        *self,
                        to_usize,
                        #[trigger] subgrid_idxs(9, 3 * (p / 3), 3 * (p % 3)),
                        true,
                    ),
            decreases 9 - g3,
        {
            proof {
                lemma_mod_bound(g3 as int, 3);
                lemma_fundamental_div_mod(g3 as int, 3);
                lemma_div_pos_is_pos(g3 as int, 3);
                lemma_multiply_divide_lt(g3 as int, 3, 3);
            }
            let row: usize = 3 * (g3 / 3);
            let col: usize = 3 * (g3 % 3);
            if !self.valid_subgrid(row, col, to_usize) {
                proof {
                    assert(row_idxs(9, g3 as int).len() == 9);
                    assert(subgrid_idxs(9, 3 * (g3 as int / 3), 3 * (g3 as int % 3)) == subgrid_idxs(
                        9,
                        row as int,
                        col as int,
                    ));
                }
                return false;
            }
            g3 = g3 + 1;
        }
        true
    }
}

/// Both row and column indices of position `k` lie inside the grid, and
/// they recompose to `k`.
proof fn lemma_rc_bounds(w: int, h: int, k: int)
    requires
        w >= 0,
        h >= 0,
        0 <= k < w * h,
    ensures
        w >= 1,
        h >= 1,
        0 <= k % w < w,
        0 <= k / w < h,
        k == w * (k / w) + k % w,
{
    assert(w >= 1 && h >= 1) by (nonlinear_arith)
        requires
            0 <= k < w * h,
            w >= 0,
            h >= 0,
    ;
    lemma_mod_bound(k, w);
    lemma_fundamental_div_mod(k, w);
    lemma_div_pos_is_pos(k, w);
    lemma_multiply_divide_lt(k, w, h);
}

/// A row-column pair addresses one cell of the grid, whichever of the two
/// orders it is combined in.
proof fn lemma_cross_index(w: int, h: int, r: int, c: int)
    requires
        0 <= r < h,
        0 <= c < w,
    ensures
        0 <= c * h + r < w * h,
        0 <= r * w + c < w * h,
{
    assert(0 <= c * h + r < w * h && 0 <= r * w + c < w * h) by (nonlinear_arith)
        requires
            0 <= r < h,
            0 <= c < w,
    ;
}

} // verus!
