//! Planes: rectangles of samples stored row by row, with 8×8 blocks copied
//! out of them and into them. The sample type is left open: a plane moves
//! samples and does no arithmetic on them.

use crate::blocks::Block;
use vstd::prelude::*;

verus! {

/// A rectangle of `width` by `height` samples, row by row.
#[derive(Debug)]
pub struct Plane<T> {
    pub data: Vec<T>,
    pub width: u32,
    pub height: u32,
}

/// The place of the sample at column `x` and row `y` lies inside the
/// storage of a plane that holds the column and the row.
pub proof fn lemma_sample_index(x: int, y: int, width: int, height: int)
    by (nonlinear_arith)
    requires
        0 <= x < width,
        0 <= y < height,
    ensures
        0 <= x + y * width < width * height,
        y * width + width <= width * height,
{
}

/// Two samples of a plane share a place only if they share column and row.
pub proof fn lemma_sample_index_unique(x1: int, y1: int, x2: int, y2: int, width: int)
    by (nonlinear_arith)
    requires
        0 <= x1 < width,
        0 <= x2 < width,
        0 <= y1,
        0 <= y2,
        x1 + y1 * width == x2 + y2 * width,
    ensures
        x1 == x2,
        y1 == y2,
{
}

impl<T: Copy> Clone for Plane<T> {
    fn clone(&self) -> (copy: Self)
        ensures
            copy.data@ == self.data@,
            copy.width == self.width,
            copy.height == self.height,
    {
        let mut data: Vec<T> = Vec::new();
        let mut i: usize = 0;
        while i < self.data.len()
            invariant
                0 <= i <= self.data@.len(),
                data@ == self.data@.take(i as int),
            decreases self.data@.len() - i,
        {
            data.push(self.data[i]);
            i = i + 1;
            proof {
                assert(data@ =~= self.data@.take(i as int));
            }
        }
        proof {
            assert(self.data@.take(i as int) =~= self.data@);
        }
        Plane { data, width: self.width, height: self.height }
    }
}

impl<T: Copy> Plane<T> {
    /// The storage holds exactly the samples of the rectangle.
    pub open spec fn wf(&self) -> bool {
        self.data@.len() == self.width * self.height
    }

    /// The sample at column `x` and row `y`.
    pub open spec fn at(&self, x: int, y: int) -> T {
        self.data@[x + y * self.width]
    }

    /// Whether `block` holds the 8×8 square whose top left sample is at
    /// column `x` and row `y`, row by row.
    pub open spec fn holds_square(&self, x: int, y: int, block: Block<T>) -> bool {
        forall|m: int| 0 <= m < 64 ==> #[trigger] block.0[m] == self.at(x + m % 8, y + m / 8)
    }

    /// Whether `self` is `before` with `block` copied over the 8×8 square
    /// whose top left sample is at column `x` and row `y`.
    pub open spec fn is_with_square(&self, before: &Plane<T>, x: int, y: int, block: Block<T>) -> bool {
        &&& self.wf()
        &&& self.same_size(before)
        &&& forall|px: int, py: int|
            0 <= px < before.width && 0 <= py < before.height ==> #[trigger] self.at(px, py) == (if x
                <= px < x + 8 && y <= py < y + 8 {
                block.0[(px - x) + 8 * (py - y)]
            } else {
                before.at(px, py)
            })
    }

    /// Whether two planes have the same size.
    pub open spec fn same_size(&self, other: &Plane<T>) -> bool {
        self.width == other.width && self.height == other.height
    }

    /// A plane with every sample equal to `value`.
    pub fn new(width: u32, height: u32, value: T) -> (plane: Plane<T>)
        requires
            width * height <= usize::MAX,
        ensures
            plane.wf(),
            plane.width == width,
            plane.height == height,
            forall|i: int| 0 <= i < plane.data@.len() ==> plane.data@[i] == value,
    {
        let len = width as usize * height as usize;
        let mut data: Vec<T> = Vec::new();
        let mut i: usize = 0;
        while i < len
            invariant
                0 <= i <= len,
                data@.len() == i,
                forall|j: int| 0 <= j < i ==> data@[j] == value,
            decreases len - i,
        {
            data.push(value);
            i = i + 1;
        }
        Plane { data, width, height }
    }

    /// The number of columns.
    pub fn width(&self) -> (w: u32)
        ensures
            w == self.width,
    {
        self.width
    }

    /// The number of rows.
    pub fn height(&self) -> (h: u32)
        ensures
            h == self.height,
    {
        self.height
    }

    /// Sets the sample at column `x` and row `y`.
    pub fn put(&mut self, x: u32, y: u32, value: T)
        requires
            old(self).wf(),
            x < old(self).width,
            y < old(self).height,
        ensures
            final(self).wf(),
            final(self).same_size(old(self)),
            final(self).data@ == old(self).data@.update(
                x + y * old(self).width,
                value,
            ),
    {
        proof {
            lemma_sample_index(x as int, y as int, self.width as int, self.height as int);
            assert(self.data.len() <= usize::MAX);
        }
        let index = x as usize + y as usize * self.width as usize;
        self.data[index] = value;
    }

    /// The sample at column `x` and row `y`.
    pub fn get(&self, x: u32, y: u32) -> (value: T)
        requires
            self.wf(),
            x < self.width,
            y < self.height,
        ensures
            value == self.at(x as int, y as int),
    {
        proof {
            lemma_sample_index(x as int, y as int, self.width as int, self.height as int);
            assert(self.data.len() <= usize::MAX);
        }
        self.data[x as usize + y as usize * self.width as usize]
    }

    /// Sets every sample to `value`.
    pub fn fill(&mut self, value: T)
        ensures
            final(self).same_size(old(self)),
            final(self).data@.len() == old(self).data@.len(),
            forall|i: int| 0 <= i < final(self).data@.len() ==> final(self).data@[i] == value,
    {
        let len = self.data.len();
        let mut i: usize = 0;
        while i < len
            invariant
                0 <= i <= len,
                len == self.data@.len(),
                self.same_size(old(self)),
                forall|j: int| 0 <= j < i ==> self.data@[j] == value,
            decreases len - i,
        {
            self.data[i] = value;
            i = i + 1;
        }
    }

    /// Copies the 8×8 square whose top left sample is at column `x` and row
    /// `y` into `block`, row by row: entry `m` of the block becomes the
    /// sample `m % 8` columns and `m / 8` rows on.
    pub fn extract_block(&self, x: u32, y: u32, block: &mut Block<T>)
        requires
            self.wf(),
            x + 8 <= self.width,
            y + 8 <= self.height,
        ensures
            self.holds_square(x as int, y as int, *final(block)),
    {
        let len = self.data.len();
        let mut i: usize = 0;
        while i < 8
            invariant
                0 <= i <= 8,
                self.wf(),
                len == self.data@.len(),
                x + 8 <= self.width,
                y + 8 <= self.height,
                forall|m: int|
                    0 <= m < 8 * i ==> #[trigger] block.0[m] == self.at(x + m % 8, y + m / 8),
            decreases 8 - i,
        {
            proof {
                lemma_sample_index(
                    x as int,
                    y as int + i as int,
                    self.width as int,
                    self.height as int,
                );
            }
            let plane_start = x as usize + (y as usize + i) * self.width as usize;
            let block_start = i * 8;
            let mut j: usize = 0;
            while j < 8
                invariant
                    0 <= j <= 8,
                    0 <= i < 8,
                    block_start == i * 8,
                    self.wf(),
                    x + 8 <= self.width,
                    plane_start == x + (y + i) * self.width,
                    plane_start + 8 <= self.data@.len(),
                    len == self.data@.len(),
                    forall|m: int|
                        0 <= m < 8 * i + j ==> #[trigger] block.0[m] == self.at(
                            x + m % 8,
                            y + m / 8,
                        ),
                decreases 8 - j,
            {
                block.0[block_start + j] = self.data[plane_start + j];
                j = j + 1;
            }
            i = i + 1;
        }
    }

    /// Copies `block` over the 8×8 square whose top left sample is at column
    /// `x` and row `y`. Every other sample stays.
    pub fn apply_block(&mut self, x: u32, y: u32, block: &Block<T>)
        requires
            old(self).wf(),
            x + 8 <= old(self).width,
            y + 8 <= old(self).height,
        ensures
            final(self).is_with_square(old(self), x as int, y as int, *block),
    {
        let ghost width = self.width as int;
        let ghost height = self.height as int;
        let len = self.data.len();
        let mut i: usize = 0;
        while i < 8
            invariant
                0 <= i <= 8,
                self.wf(),
                len == self.data@.len(),
                self.same_size(old(self)),
                width == self.width,
                height == self.height,
                x + 8 <= width,
                y + 8 <= height,
                forall|px: int, py: int|
                    0 <= px < width && 0 <= py < height ==> #[trigger] self.at(px, py) == (if x
                        <= px < x + 8 && y <= py < y + i {
                        block.0[(px - x) + 8 * (py - y)]
                    } else {
                        old(self).at(px, py)
                    }),
            decreases 8 - i,
        {
            proof {
                lemma_sample_index(x as int, y as int + i as int, width, height);
            }
            let plane_start = x as usize + (y as usize + i) * self.width as usize;
            let block_start = i * 8;
            let ghost before = *self;
            let mut j: usize = 0;
            while j < 8
                invariant
                    0 <= j <= 8,
                    0 <= i < 8,
                    block_start == i * 8,
                    self.wf(),
                    self.same_size(old(self)),
                    width == self.width,
                    height == self.height,
                    x + 8 <= width,
                    plane_start == x + (y + i) * width,
                    plane_start + 8 <= self.data@.len(),
                    len == self.data@.len(),
                    self.data@.len() == before.data@.len(),
                    forall|k: int|
                        0 <= k < self.data@.len() ==> #[trigger] self.data@[k] == (if plane_start
                            <= k < plane_start + j {
                            block.0[8 * i + (k - plane_start)]
                        } else {
                            before.data@[k]
                        }),
                decreases 8 - j,
            {
                self.data[plane_start + j] = block.0[block_start + j];
                j = j + 1;
            }
            proof {
                assert forall|px: int, py: int| 0 <= px < width && 0 <= py < height implies #[trigger] self.at(
                    px,
                    py,
                ) == (if x <= px < x + 8 && y <= py < y + i + 1 {
                    block.0[(px - x) + 8 * (py - y)]
                } else {
                    old(self).at(px, py)
                }) by {
                    lemma_sample_index(px, py, width, height);
                    let k = px + py * width;
                    assert(before.at(px, py) == before.data@[k]);
                    if plane_start <= k < plane_start + 8 {
                        lemma_sample_index_unique(px, py, k - (y + i) * width, y + i, width);
                    }
                }
            }
            i = i + 1;
        }
    }
}

} // verus!
