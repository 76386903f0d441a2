use vstd::arithmetic::div_mod::{lemma_fundamental_div_mod, lemma_fundamental_div_mod_converse};
use vstd::prelude::*;
use vstd::slice::slice_subrange;

use crate::vec2d_error::Vec2dError;
use crate::Pos;

verus! {

/// Where the tile at `(x, y)` sits in the backing sequence of a grid of the given width.
pub open spec fn linear_index(width: nat, x: int, y: int) -> int {
    y * width + x
}

/// Index arithmetic: a position inside a `width` by `height` grid lands inside
/// the backing sequence.
proof fn lemma_index_in_range(width: nat, height: nat, x: int, y: int)
    requires
        0 <= x < width,
        0 <= y < height,
    ensures
        0 <= linear_index(width, x, y) < width * height,
        linear_index(width, 0, y) + width <= width * height,
        linear_index(width, 0, y + 1) == linear_index(width, 0, y) + width,
{
    assert(0 <= y * width) by (nonlinear_arith)
        requires
            0 <= y,
    ;
    assert(y * width + width == (y + 1) * width) by (nonlinear_arith);
    assert((y + 1) * width <= height * width) by (nonlinear_arith)
        requires
            y + 1 <= height,
    ;
    assert(height * width == width * height) by (nonlinear_arith);
}

/// The position of the tile at index `i` of the backing sequence of a grid of the given width.
pub open spec fn pos_of(width: nat, i: int) -> Pos {
    ((i % (width as int)) as usize, (i / (width as int)) as usize)
}

/// `after` holds, at each index, what `fun` gives for the tile at that index of `before`.
pub open spec fn tiles_mapped<T, F: Fn(&T) -> T>(before: Seq<T>, after: Seq<T>, fun: F) -> bool {
    &&& after.len() == before.len()
    &&& forall|i: int| 0 <= i < before.len() ==> call_ensures(fun, (&before[i],), #[trigger] after[i])
}

/// A grid of tiles laid out row after row in one `Vec`.
#[derive(Debug, Clone, PartialEq, Eq, Hash)]
pub struct Vec2d<T: Clone> {
    tiles: Vec<T>,
    width: usize,
}

impl<T: Clone> View for Vec2d<T> {
    type V = Seq<T>;

    /// The backing sequence, row after row.
    closed spec fn view(&self) -> Seq<T> {
        self.tiles@
    }
}

impl<T: Clone> Vec2d<T> {
    /// The number of tiles in a row.
    pub closed spec fn spec_width(&self) -> nat {
        self.width as nat
    }

    /// The number of rows, derived from the length of the backing sequence.
    pub open spec fn spec_height(&self) -> nat {
        self@.len() / self.spec_width()
    }

    /// A grid is never empty, and its backing sequence holds whole rows only.
    pub open spec fn wf(&self) -> bool {
        &&& self.spec_width() > 0
        &&& 0 < self@.len() <= usize::MAX
        &&& self@.len() % self.spec_width() == 0
    }

    /// `(x, y)` is a position on the grid.
    pub open spec fn in_bounds(&self, x: int, y: int) -> bool {
        0 <= x < self.spec_width() && 0 <= y < self.spec_height()
    }

    /// The tile at `(x, y)`.
    pub open spec fn tile(&self, x: int, y: int) -> T {
        self@[linear_index(self.spec_width(), x, y)]
    }

    /// Row `y` of the backing sequence: the tiles from `(0, y)` to `(width - 1, y)`.
    pub open spec fn row(&self, y: int) -> Seq<T> {
        self@.subrange(
            linear_index(self.spec_width(), 0, y),
            linear_index(self.spec_width(), 0, y + 1),
        )
    }

    /// This grid is `input` adopted as the backing sequence of a grid `width` tiles wide.
    pub open spec fn adopts(&self, input: Seq<T>, width: usize) -> bool {
        &&& self.wf()
        &&& self@ == input
        &&& self.spec_width() == width
    }

    /// Each tile of the backing sequence with its position.
    pub open spec fn with_pos(&self) -> Seq<(Pos, &T)> {
        Seq::new(self@.len(), |i: int| (pos_of(self.spec_width(), i), &self@[i]))
    }

    /// The backing sequence holds `height` whole rows, and there is at least one row.
    pub proof fn lemma_len(&self)
        requires
            self.wf(),
        ensures
            self@.len() == self.spec_width() * self.spec_height(),
            self.spec_height() > 0,
    {
        lemma_fundamental_div_mod(self@.len() as int, self.spec_width() as int);
        assert(self.spec_width() * self.spec_height() == self.spec_height() * self.spec_width())
            by (nonlinear_arith);
        assert(self.spec_height() != 0) by (nonlinear_arith)
            requires
                self@.len() == self.spec_width() * self.spec_height(),
                self@.len() > 0,
        ;
    }

    /// A position on the grid indexes into the backing sequence, and so does its whole row.
    pub proof fn lemma_in_bounds(&self, x: int, y: int)
        requires
            self.wf(),
            self.in_bounds(x, y),
        ensures
            0 <= linear_index(self.spec_width(), x, y) < self@.len(),
            linear_index(self.spec_width(), 0, y) + self.spec_width() <= self@.len(),
            linear_index(self.spec_width(), 0, y + 1) == linear_index(self.spec_width(), 0, y)
                + self.spec_width(),
    {
        self.lemma_len();
        lemma_index_in_range(self.spec_width(), self.spec_height(), x, y);
    }

    /// Creates a `width` by `height` grid with every tile a clone of `default`.
    pub fn new(default: T, width: usize, height: usize) -> (r: Result<Vec2d<T>, Vec2dError>)
        requires
            width * height <= usize::MAX,
        ensures
            r is Err <==> width == 0 || height == 0,
            r is Err ==> r == Err::<Vec2d<T>, Vec2dError>(
                Vec2dError::WidthOrHeightIs0 { width, height },
            ),
            r matches Ok(g) ==> {
                &&& g.wf()
                &&& g.spec_width() == width
                &&& g.spec_height() == height
                &&& g@.len() == width * height
                &&& forall|i: int| 0 <= i < g@.len() ==> cloned(default, #[trigger] g@[i])
            },
    {
        let no_tiles = width * height;
        if no_tiles == 0 {
            assert(width == 0 || height == 0) by (nonlinear_arith)
                requires no_tiles == width * height, no_tiles == 0;
            Err(Vec2dError::WidthOrHeightIs0 { width, height })
        } else {
            assert(width != 0 && height != 0) by (nonlinear_arith)
                requires no_tiles == width * height, no_tiles != 0;
            let mut tiles: Vec<T> = Vec::with_capacity(no_tiles);
            let mut i: usize = 1;
            while i < no_tiles
                invariant
                    1 <= i <= no_tiles,
                    tiles@.len() == i - 1,
                    forall|k: int| 0 <= k < tiles@.len() ==> cloned(default, #[trigger] tiles@[k]),
                decreases no_tiles - i,
            {
                tiles.push(default.clone());
                i += 1;
            }
            tiles.push(default);
            let g = Vec2d { tiles, width };
            proof {
                assert(no_tiles == height * width) by (nonlinear_arith)
                    requires
                        no_tiles == width * height,
                ;
                lemma_fundamental_div_mod_converse(no_tiles as int, width as int, height as int, 0);
            }
            Ok(g)
        }
    }

    /// Adopts `input` as the backing sequence of a grid `width` tiles wide, without copying.
    pub fn new_from_vec(input: Vec<T>, width: usize) -> (r: Result<Vec2d<T>, Vec2dError>)
        ensures
            r is Err <==> input@.len() == 0 || width == 0 || input@.len() % (width as nat) != 0,
            input@.len() == 0 || width == 0 ==> r == Err::<Vec2d<T>, Vec2dError>(
                Vec2dError::WidthOrInputLenIs0 { width, input_len: input@.len() as usize },
            ),
            input@.len() != 0 && width != 0 && input@.len() % (width as nat) != 0 ==> r == Err::<
                Vec2d<T>,
                Vec2dError,
            >(Vec2dError::InputNotDivisibleByWidth { width, input_len: input@.len() as usize }),
            r matches Ok(g) ==> {
                &&& g.adopts(input@, width)
                &&& g.spec_height() == input@.len() / (width as nat)
            },
    {
        if input.len() == 0 || width == 0 {
            Err(Vec2dError::WidthOrInputLenIs0 { width, input_len: input.len() })
        } else if input.len() % width != 0 {
            Err(Vec2dError::InputNotDivisibleByWidth { width, input_len: input.len() })
        } else {
            Ok(Vec2d { tiles: input, width })
        }
    }
    /// The backing sequence, row after row.
    pub fn tiles(&self) -> (r: &Vec<T>)
        ensures
            r@ == self@,
    {
        &self.tiles
    }

    /// The number of rows.
    pub fn height(&self) -> (r: usize)
        requires
            self.wf(),
        ensures
            r == self.spec_height(),
    {
        self.tiles.len() / self.width()
    }

    /// The number of tiles in a row.
    pub fn width(&self) -> (r: usize)
        ensures
            r == self.spec_width(),
    {
        self.width
    }

    /// The tile at `pos`. The position must lie on the grid: this is the
    /// access path for callers to whom a position off the grid is a defect.
    pub fn index(&self, pos: Pos) -> (r: &T)
        requires
            self.wf(),
            self.in_bounds(pos.0 as int, pos.1 as int),
        ensures
            *r == self.tile(pos.0 as int, pos.1 as int),
    {
        let x: usize = pos.0;
        let y: usize = pos.1;
        proof {
            self.lemma_in_bounds(x as int, y as int);
        }
        &self.tiles[y * self.width + x]
    }

    /// A mutable reference to the tile at `pos`, which must lie on the grid.
    pub fn index_mut(&mut self, pos: Pos) -> (r: &mut T)
        requires
            old(self).wf(),
            old(self).in_bounds(pos.0 as int, pos.1 as int),
        ensures
            *r == old(self).tile(pos.0 as int, pos.1 as int),
            final(self).spec_width() == old(self).spec_width(),
            final(self)@ == old(self)@.update(
                linear_index(old(self).spec_width(), pos.0 as int, pos.1 as int),
                *final(r),
            ),
    {
        let x: usize = pos.0;
        let y: usize = pos.1;
        proof {
            self.lemma_in_bounds(x as int, y as int);
        }
        let i = y * self.width + x;
        &mut self.tiles[i]
    }

    /// The tile at `(x, y)`, or `None` where `(x, y)` is off the grid.
    pub fn get(&self, x: usize, y: usize) -> (r: Option<&T>)
        requires
            self.wf(),
        ensures
            r is Some <==> self.in_bounds(x as int, y as int),
            r matches Some(t) ==> *t == self.tile(x as int, y as int),
    {
        if x >= self.width {
            return None;
        }
        if y >= self.tiles.len() / self.width {
            return None;
        }
        proof {
            self.lemma_in_bounds(x as int, y as int);
        }
        Some(&self.tiles[y * self.width + x])
    }

    /// A mutable reference to the tile at `(x, y)`, or `None` where `(x, y)` is off the grid.
    pub fn get_mut(&mut self, x: usize, y: usize) -> (r: Option<&mut T>)
        requires
            old(self).wf(),
        ensures
            r is Some <==> old(self).in_bounds(x as int, y as int),
            r is None ==> *final(self) == *old(self),
            r is Some ==> {
                &&& *r.unwrap() == old(self).tile(x as int, y as int)
                &&& final(self).spec_width() == old(self).spec_width()
                &&& final(self)@ == old(self)@.update(
                    linear_index(old(self).spec_width(), x as int, y as int),
                    *final(r.unwrap()),
                )
            },
    {
        if x >= self.width {
            return None;
        }
        if y >= self.tiles.len() / self.width {
            return None;
        }
        proof {
            self.lemma_in_bounds(x as int, y as int);
        }
        let i = y * self.width + x;
        Some(&mut self.tiles[i])
    }

    /// Row `y` as a slice, or `None` where `y` is not a row of the grid.
    pub fn get_row(&self, y: usize) -> (r: Option<&[T]>)
        requires
            self.wf(),
        ensures
            r is Some <==> y < self.spec_height(),
            r matches Some(row) ==> row@ == self.row(y as int),
    {
        if y >= self.tiles.len() / self.width {
            return None;
        }
        proof {
            self.lemma_in_bounds(0, y as int);
        }
        let start = y * self.width;
        Some(slice_subrange(self.tiles.as_slice(), start, start + self.width))
    }

    /// Row `y` as a mutable slice, or `None` where `y` is not a row of the grid.
    pub fn get_row_mut(&mut self, y: usize) -> (r: Option<&mut [T]>)
        requires
            old(self).wf(),
        ensures
            r is Some <==> y < old(self).spec_height(),
            r is None ==> *final(self) == *old(self),
            r is Some ==> {
                &&& r.unwrap()@ == old(self).row(y as int)
                &&& final(self).spec_width() == old(self).spec_width()
                &&& final(self)@ == old(self)@.subrange(
                    0,
                    linear_index(old(self).spec_width(), 0, y as int),
                ) + final(r.unwrap())@ + old(self)@.subrange(
                    linear_index(old(self).spec_width(), 0, y as int + 1),
                    old(self)@.len() as int,
                )
            },
    {
        if y >= self.tiles.len() / self.width {
            return None;
        }
        proof {
            self.lemma_in_bounds(0, y as int);
        }
        let w = self.width;
        let all = self.tiles.as_mut_slice();
        let (_, rest) = all.split_at_mut(y * w);
        let (row, _) = rest.split_at_mut(w);
        assert(row@ =~= old(self).row(y as int));
        Some(row)
    }

    /// Replaces every tile with `fun` applied to it, row after row, left to right.
    pub fn for_each_tile<F: Fn(&T) -> T>(&mut self, fun: F)
        requires
            old(self).wf(),
            forall|i: int| 0 <= i < old(self)@.len() ==> call_requires(fun, (&old(self)@[i],)),
        ensures
            final(self).wf(),
            final(self).spec_width() == old(self).spec_width(),
            tiles_mapped(old(self)@, final(self)@, fun),
    {
        let ghost before = self@;
        let mut i: usize = 0;
        while i < self.tiles.len()
            invariant
                0 <= i <= self@.len(),
                self@.len() == before.len(),
                self.spec_width() == old(self).spec_width(),
                before == old(self)@,
                forall|k: int| 0 <= k < before.len() ==> call_requires(fun, (&before[k],)),
                forall|k: int| i <= k < before.len() ==> self@[k] == before[k],
                forall|k: int|
                    0 <= k < i ==> call_ensures(fun, (&before[k],), #[trigger] self@[k]),
            decreases self@.len() - i,
        {
            assert(call_requires(fun, (&before[i as int],)));
            let t = fun(&self.tiles[i]);
            self.tiles[i] = t;
            i += 1;
        }
    }

    /// For each column `x`, the pair of `x` and the range of the rows, `0..height`.
    pub fn iter_xy(&self) -> (r: Vec<(usize, core::ops::Range<usize>)>)
        requires
            self.wf(),
        ensures
            r@.len() == self.spec_width(),
            forall|x: int|
                0 <= x < r@.len() ==> {
                    &&& (#[trigger] r@[x]).0 == x
                    &&& r@[x].1.start == 0
                    &&& r@[x].1.end == self.spec_height()
                },
    {
        let width = self.width;
        let height = self.height();
        let mut r: Vec<(usize, core::ops::Range<usize>)> = Vec::with_capacity(width);
        let mut x: usize = 0;
        while x < width
            invariant
                0 <= x <= width,
                width == self.spec_width(),
                height == self.spec_height(),
                r@.len() == x,
                forall|k: int|
                    0 <= k < x ==> {
                        &&& (#[trigger] r@[k]).0 == k
                        &&& r@[k].1.start == 0
                        &&& r@[k].1.end == height
                    },
            decreases width - x,
        {
            r.push((x, 0..height));
            x += 1;
        }
        r
    }

    /// The rows of the grid, first row first.
    pub fn iter_rows(&self) -> (r: Vec<&[T]>)
        requires
            self.wf(),
        ensures
            r@.len() == self.spec_height(),
            forall|y: int| 0 <= y < r@.len() ==> (#[trigger] r@[y])@ == self.row(y),
    {
        let height = self.height();
        let mut r: Vec<&[T]> = Vec::with_capacity(height);
        let mut y: usize = 0;
        while y < height
            invariant
                self.wf(),
                0 <= y <= height,
                height == self.spec_height(),
                r@.len() == y,
                forall|k: int| 0 <= k < y ==> (#[trigger] r@[k])@ == self.row(k),
            decreases height - y,
        {
            proof {
                self.lemma_in_bounds(0, y as int);
            }
            let start = y * self.width;
            r.push(slice_subrange(self.tiles.as_slice(), start, start + self.width));
            y += 1;
        }
        r
    }

    /// The rows of the grid as mutable slices, first row first. What the caller
    /// leaves in the slices is what the grid holds afterwards.
    pub fn iter_rows_mut(&mut self) -> (r: Vec<&mut [T]>)
        requires
            old(self).wf(),
        ensures
            r@.len() == old(self).spec_height(),
            forall|y: int| 0 <= y < r@.len() ==> #[trigger] r@[y]@ == old(self).row(y),
            final(self).spec_width() == old(self).spec_width(),
            final(self)@ == Seq::new(r@.len(), |y: int| final(r@[y])@).flatten(),
    {
        let w = self.width;
        let height = self.height();
        let ghost len = self@.len();
        let mut r: Vec<&mut [T]> = Vec::with_capacity(height);
        let mut rest: &mut [T] = self.tiles.as_mut_slice();
        let mut y: usize = 0;
        while y < height
            invariant
                0 <= y <= height,
                height == old(self).spec_height(),
                w == old(self).spec_width(),
                old(self).wf(),
                len == old(self)@.len(),
                rest@ == old(self)@.subrange(linear_index(w as nat, 0, y as int), len as int),
                r@.len() == y,
                forall|k: int| 0 <= k < y ==> #[trigger] r@[k]@ == old(self).row(k),
                self.width == w,
                after_borrow(self.tiles)@ == Seq::new(r@.len(), |k: int| final(r@[k])@).flatten()
                    + final(rest)@,
            decreases height - y,
        {
            proof {
                old(self).lemma_in_bounds(0, y as int);
            }
            let ghost done = Seq::new(r@.len(), |k: int| final(r@[k])@);
            let ghost was_rest = final(rest)@;
            let (row, tail) = rest.split_at_mut(w);
            assert(was_rest == final(row)@ + final(tail)@);
            r.push(row);
            rest = tail;
            y += 1;
            proof {
                assert(Seq::new(r@.len(), |k: int| final(r@[k])@) =~= done.push(final(r@[y - 1])@));
                done.lemma_flatten_push(final(r@[y - 1])@);
            }
        }
        proof {
            old(self).lemma_len();
            assert(linear_index(w as nat, 0, height as int) == w * height) by (nonlinear_arith);
            assert(rest@.len() == 0);
        }
        assert(final(rest)@ =~= Seq::<T>::empty());
        r
    }

    /// Each tile with its position, in the order of the backing sequence.
    pub fn iter_with_pos(&self) -> (r: Vec<(Pos, &T)>)
        requires
            self.wf(),
        ensures
            r@ == self.with_pos(),
    {
        let width = self.width;
        let mut r: Vec<(Pos, &T)> = Vec::with_capacity(self.tiles.len());
        let mut nr: usize = 0;
        while nr < self.tiles.len()
            invariant
                self.wf(),
                width == self.spec_width(),
                0 <= nr <= self@.len(),
                r@ =~= self.with_pos().take(nr as int),
            decreases self@.len() - nr,
        {
            let x = nr % width;
            let y = nr / width;
            r.push(((x, y), &self.tiles[nr]));
            nr += 1;
        }
        assert(r@ =~= self.with_pos());
        r
    }

    /// Each tile, as a mutable reference, with its position, in the order of the
    /// backing sequence. What the caller leaves in the tiles is what the grid
    /// holds afterwards.
    pub fn iter_with_pos_mut(&mut self) -> (r: Vec<(Pos, &mut T)>)
        requires
            old(self).wf(),
        ensures
            r@.len() == old(self)@.len(),
            forall|i: int|
                0 <= i < r@.len() ==> {
                    &&& (#[trigger] r@[i]).0 == pos_of(old(self).spec_width(), i)
                    &&& *r@[i].1 == old(self)@[i]
                },
            final(self).spec_width() == old(self).spec_width(),
            final(self)@ == Seq::new(r@.len(), |i: int| *final(r@[i].1)),
    {
        let width = self.width;
        let len = self.tiles.len();
        let mut r: Vec<(Pos, &mut T)> = Vec::with_capacity(len);
        let mut rest: &mut [T] = self.tiles.as_mut_slice();
        let mut nr: usize = 0;
        while nr < len
            invariant
                0 <= nr <= len,
                len == old(self)@.len(),
                width == old(self).spec_width(),
                old(self).wf(),
                rest@ == old(self)@.subrange(nr as int, len as int),
                r@.len() == nr,
                forall|k: int|
                    0 <= k < nr ==> {
                        &&& (#[trigger] r@[k]).0 == pos_of(width as nat, k)
                        &&& *r@[k].1 == old(self)@[k]
                    },
                self.width == width,
                after_borrow(self.tiles)@ == Seq::new(r@.len(), |k: int| *final(r@[k].1))
                    + final(rest)@,
            decreases len - nr,
        {
            let ghost done = Seq::new(r@.len(), |k: int| *final(r@[k].1));
            let ghost was_rest = final(rest)@;
            let (head, tail) = rest.split_at_mut(1);
            assert(was_rest == final(head)@ + final(tail)@);
            let ghost head_done = final(head)@;
            let tile = head.first_mut().unwrap();
            assert(head_done =~= seq![*final(tile)]);
            r.push(((nr % width, nr / width), tile));
            rest = tail;
            nr += 1;
            assert(Seq::new(r@.len(), |k: int| *final(r@[k].1)) =~= done.push(*final(r@[nr - 1].1)));
        }
        assert(final(rest)@ =~= Seq::<T>::empty());
        r
    }

    /// Consumes the grid and hands back its backing `Vec`, unchanged.
    pub fn to_vec(self) -> (r: Vec<T>)
        ensures
            r@ == self@,
    {
        self.tiles
    }
}

} // verus!
