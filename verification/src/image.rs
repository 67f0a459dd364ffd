//! Owning rectangular plane buffers: one typed, one in wide transport codes.

use vstd::prelude::*;

verus! {

use crate::error::Error;
use crate::sample::Sample;

/// Allocate a vector of `n` copies of `v`, reporting failure instead of
/// aborting where the reservation is refused.
fn try_filled_vec<T: Copy>(v: T, n: usize) -> (r: Result<Vec<T>, Error>)
    ensures
        r matches Ok(vec) ==> vec@.len() == n && forall|i: int| 0 <= i < n ==> vec@[i] == v,
        r matches Err(e) ==> e is OutOfMemory,
{
    let mut out: Vec<T> = Vec::new();
    if out.try_reserve(n).is_err() {
        return Err(Error::OutOfMemory);
    }
    let mut i: usize = 0;
    while i < n
        invariant
            i <= n,
            out@.len() == i,
            forall|j: int| 0 <= j < i ==> out@[j] == v,
        decreases n - i,
    {
        out.push(v);
        i = i + 1;
    }
    Ok(out)
}

/// An owning rectangular array of samples of one sample type, addressed by
/// `(column, row)` with `size = (width, height)`.
pub struct Image<T: Sample> {
    size: (usize, usize),
    data: Vec<T>,
}

impl<T: Sample> Image<T> {
    /// The buffer holds exactly `width * height` samples in row-major order.
    /// Constructors establish it and mutation preserves it, so it holds of
    /// every reachable buffer.
    #[verifier::type_invariant]
    pub closed spec fn wf(&self) -> bool {
        &&& self.data@.len() == self.size.0 * self.size.1
        &&& self.size.0 * self.size.1 <= usize::MAX
    }


    /// Declared `(width, height)`.
    pub closed spec fn size_spec(&self) -> (usize, usize) {
        self.size
    }

    /// The sample at column `x`, row `y`.
    pub closed spec fn pix(&self, x: int, y: int) -> T
        recommends
            0 <= x < self.size_spec().0,
            0 <= y < self.size_spec().1,
    {
        self.data@[y * self.size.0 + x]
    }

    proof fn lemma_index_in_bounds(&self, x: int, y: int)
        requires
            self.wf(),
            0 <= x < self.size.0,
            0 <= y < self.size.1,
        ensures
            0 <= y * self.size.0 + x < self.data@.len(),
    {
        assert(y * self.size.0 + x < self.size.0 * self.size.1) by (nonlinear_arith)
            requires
                0 <= x < self.size.0,
                0 <= y < self.size.1,
        ;
    }

    /// Distinct in-bounds coordinates address distinct buffer offsets.
    proof fn lemma_index_injective(&self, x1: int, y1: int, x2: int, y2: int)
        requires
            0 <= x1 < self.size.0,
            0 <= y1 < self.size.1,
            0 <= x2 < self.size.0,
            0 <= y2 < self.size.1,
            y1 * self.size.0 + x1 == y2 * self.size.0 + x2,
        ensures
            x1 == x2 && y1 == y2,
    {
        assert(x1 == x2 && y1 == y2) by (nonlinear_arith)
            requires
                0 <= x1 < self.size.0,
                0 <= y1 < self.size.1,
                0 <= x2 < self.size.0,
                0 <= y2 < self.size.1,
                y1 * self.size.0 + x1 == y2 * self.size.0 + x2,
        ;
    }

    /// A fresh zero-filled buffer of the given size.
    pub fn new(size: (usize, usize)) -> (r: Result<Image<T>, Error>)
        ensures
            r matches Ok(im) ==> {
                &&& im.wf()
                &&& im.size_spec() == size
                &&& forall|x: int, y: int|
                    0 <= x < size.0 && 0 <= y < size.1 ==> im.pix(x, y) == T::zero_spec()
            },
            r matches Err(e) ==> e is OutOfMemory,
    {
        let n = match size.0.checked_mul(size.1) {
            Some(n) => n,
            None => {
                return Err(Error::OutOfMemory);
            },
        };
        let data = try_filled_vec(T::zero(), n)?;
        let im = Image { size, data };
        proof {
            assert forall|x: int, y: int|
                0 <= x < size.0 && 0 <= y < size.1 implies im.pix(x, y) == T::zero_spec() by {
                im.lemma_index_in_bounds(x, y);
            }
        }
        Ok(im)
    }

    /// Declared `(width, height)`.
    pub fn size(&self) -> (s: (usize, usize))
        ensures
            s == self.size_spec(),
    {
        self.size
    }

    /// Read the sample at `(x, y)`.
    pub fn get(&self, x: usize, y: usize) -> (s: T)
        requires
            self.wf(),
            x < self.size_spec().0,
            y < self.size_spec().1,
        ensures
            s == self.pix(x as int, y as int),
    {
        proof {
            self.lemma_index_in_bounds(x as int, y as int);
        }
        self.data[y * self.size.0 + x]
    }

    /// Overwrite the sample at `(x, y)`; every other sample is unchanged.
    pub fn set(&mut self, x: usize, y: usize, v: T)
        requires
            old(self).wf(),
            x < old(self).size_spec().0,
            y < old(self).size_spec().1,
        ensures
            final(self).wf(),
            final(self).size_spec() == old(self).size_spec(),
            final(self).pix(x as int, y as int) == v,
            forall|i: int, j: int|
                0 <= i < final(self).size_spec().0 && 0 <= j < final(self).size_spec().1
                    && !(i == x && j == y) ==> final(self).pix(i, j) == old(self).pix(i, j),
    {
        proof {
            self.lemma_index_in_bounds(x as int, y as int);
        }
        self.data[y * self.size.0 + x] = v;
        proof {
            assert forall|i: int, j: int|
                0 <= i < self.size_spec().0 && 0 <= j < self.size_spec().1
                    && !(i == x && j == y) implies self.pix(i, j) == old(self).pix(i, j) by {
                self.lemma_index_in_bounds(i, j);
                if j * self.size.0 + i == y * self.size.0 + x {
                    self.lemma_index_injective(i, j, x as int, y as int);
                }
            }
        }
    }

    /// A deep copy of this buffer.
    pub fn to_image(&self) -> (r: Result<Image<T>, Error>)
        requires
            self.wf(),
        ensures
            r matches Ok(im) ==> {
                &&& im.wf()
                &&& im.size_spec() == self.size_spec()
                &&& forall|x: int, y: int|
                    0 <= x < self.size_spec().0 && 0 <= y < self.size_spec().1
                        ==> im.pix(x, y) == self.pix(x, y)
            },
            r matches Err(e) ==> e is OutOfMemory,
    {
        let mut out: Vec<T> = Vec::new();
        if out.try_reserve(self.data.len()).is_err() {
            return Err(Error::OutOfMemory);
        }
        let mut i: usize = 0;
        while i < self.data.len()
            invariant
                i <= self.data@.len(),
                out@.len() == i,
                forall|j: int| 0 <= j < i ==> out@[j] == self.data@[j],
            decreases self.data@.len() - i,
        {
            out.push(self.data[i]);
            i = i + 1;
        }
        let im = Image { size: self.size, data: out };
        proof {
            assert forall|x: int, y: int|
                0 <= x < self.size_spec().0 && 0 <= y < self.size_spec().1
                    implies im.pix(x, y) == self.pix(x, y) by {
                self.lemma_index_in_bounds(x, y);
            }
        }
        Ok(im)
    }
}

/// An owning rectangular array of wide transport codes, addressed by
/// `(column, row)` with `size = (width, height)`.
pub struct WideImage {
    size: (usize, usize),
    data: Vec<u64>,
}

impl WideImage {
    /// The buffer holds exactly `width * height` codes in row-major order.
    pub closed spec fn wf(&self) -> bool {
        &&& self.data@.len() == self.size.0 * self.size.1
        &&& self.size.0 * self.size.1 <= usize::MAX
    }

    /// Declared `(width, height)`.
    pub closed spec fn size_spec(&self) -> (usize, usize) {
        self.size
    }

    /// The wide code at column `x`, row `y`.
    pub closed spec fn pix(&self, x: int, y: int) -> u64
        recommends
            0 <= x < self.size_spec().0,
            0 <= y < self.size_spec().1,
    {
        self.data@[y * self.size.0 + x]
    }

    proof fn lemma_index_in_bounds(&self, x: int, y: int)
        requires
            self.wf(),
            0 <= x < self.size.0,
            0 <= y < self.size.1,
        ensures
            0 <= y * self.size.0 + x < self.data@.len(),
    {
        assert(y * self.size.0 + x < self.size.0 * self.size.1) by (nonlinear_arith)
            requires
                0 <= x < self.size.0,
                0 <= y < self.size.1,
        ;
    }

    proof fn lemma_index_injective(&self, x1: int, y1: int, x2: int, y2: int)
        requires
            0 <= x1 < self.size.0,
            0 <= y1 < self.size.1,
            0 <= x2 < self.size.0,
            0 <= y2 < self.size.1,
            y1 * self.size.0 + x1 == y2 * self.size.0 + x2,
        ensures
            x1 == x2 && y1 == y2,
    {
        assert(x1 == x2 && y1 == y2) by (nonlinear_arith)
            requires
                0 <= x1 < self.size.0,
                0 <= y1 < self.size.1,
                0 <= x2 < self.size.0,
                0 <= y2 < self.size.1,
                y1 * self.size.0 + x1 == y2 * self.size.0 + x2,
        ;
    }

    /// A fresh zero-filled wide buffer of the given size.
    pub fn new(size: (usize, usize)) -> (r: Result<WideImage, Error>)
        ensures
            r matches Ok(im) ==> {
                &&& im.wf()
                &&& im.size_spec() == size
                &&& forall|x: int, y: int|
                    0 <= x < size.0 && 0 <= y < size.1 ==> im.pix(x, y) == 0u64
            },
            r matches Err(e) ==> e is OutOfMemory,
    {
        let n = match size.0.checked_mul(size.1) {
            Some(n) => n,
            None => {
                return Err(Error::OutOfMemory);
            },
        };
        let data = try_filled_vec(0u64, n)?;
        let im = WideImage { size, data };
        proof {
            assert forall|x: int, y: int|
                0 <= x < size.0 && 0 <= y < size.1 implies im.pix(x, y) == 0u64 by {
                im.lemma_index_in_bounds(x, y);
            }
        }
        Ok(im)
    }

    /// Declared `(width, height)`.
    pub fn size(&self) -> (s: (usize, usize))
        ensures
            s == self.size_spec(),
    {
        self.size
    }

    /// Read the wide code at `(x, y)`.
    pub fn get(&self, x: usize, y: usize) -> (s: u64)
        requires
            self.wf(),
            x < self.size_spec().0,
            y < self.size_spec().1,
        ensures
            s == self.pix(x as int, y as int),
    {
        proof {
            self.lemma_index_in_bounds(x as int, y as int);
        }
        self.data[y * self.size.0 + x]
    }

    /// Overwrite the wide code at `(x, y)`; every other code is unchanged.
    pub fn set(&mut self, x: usize, y: usize, v: u64)
        requires
            old(self).wf(),
            x < old(self).size_spec().0,
            y < old(self).size_spec().1,
        ensures
            final(self).wf(),
            final(self).size_spec() == old(self).size_spec(),
            final(self).pix(x as int, y as int) == v,
            forall|i: int, j: int|
                0 <= i < final(self).size_spec().0 && 0 <= j < final(self).size_spec().1
                    && !(i == x && j == y) ==> final(self).pix(i, j) == old(self).pix(i, j),
    {
        proof {
            self.lemma_index_in_bounds(x as int, y as int);
        }
        self.data[y * self.size.0 + x] = v;
        proof {
            assert forall|i: int, j: int|
                0 <= i < self.size_spec().0 && 0 <= j < self.size_spec().1
                    && !(i == x && j == y) implies self.pix(i, j) == old(self).pix(i, j) by {
                self.lemma_index_in_bounds(i, j);
                if j * self.size.0 + i == y * self.size.0 + x {
                    self.lemma_index_injective(i, j, x as int, y as int);
                }
            }
        }
    }

    /// A deep copy of this wide buffer.
    pub fn to_image(&self) -> (r: Result<WideImage, Error>)
        requires
            self.wf(),
        ensures
            r matches Ok(im) ==> {
                &&& im.wf()
                &&& im.size_spec() == self.size_spec()
                &&& forall|x: int, y: int|
                    0 <= x < self.size_spec().0 && 0 <= y < self.size_spec().1
                        ==> im.pix(x, y) == self.pix(x, y)
            },
            r matches Err(e) ==> e is OutOfMemory,
    {
        let mut out: Vec<u64> = Vec::new();
        if out.try_reserve(self.data.len()).is_err() {
            return Err(Error::OutOfMemory);
        }
        let mut i: usize = 0;
        while i < self.data.len()
            invariant
                i <= self.data@.len(),
                out@.len() == i,
                forall|j: int| 0 <= j < i ==> out@[j] == self.data@[j],
            decreases self.data@.len() - i,
        {
            out.push(self.data[i]);
            i = i + 1;
        }
        let im = WideImage { size: self.size, data: out };
        proof {
            assert forall|x: int, y: int|
                0 <= x < self.size_spec().0 && 0 <= y < self.size_spec().1
                    implies im.pix(x, y) == self.pix(x, y) by {
                self.lemma_index_in_bounds(x, y);
            }
        }
        Ok(im)
    }
}

/// Deep-copy a whole list of wide buffers, as a render pass does between
/// stages.
pub fn clone_images(images: &Vec<WideImage>) -> (r: Result<Vec<WideImage>, Error>)
    requires
        forall|k: int| 0 <= k < images@.len() ==> (#[trigger] images@[k]).wf(),
    ensures
        r matches Ok(out) ==> {
            &&& out@.len() == images@.len()
            &&& forall|k: int| 0 <= k < out@.len() ==> {
                &&& (#[trigger] out@[k]).wf()
                &&& out@[k].size_spec() == images@[k].size_spec()
                &&& forall|x: int, y: int|
                    0 <= x < out@[k].size_spec().0 && 0 <= y < out@[k].size_spec().1
                        ==> out@[k].pix(x, y) == images@[k].pix(x, y)
            }
        },
        r matches Err(e) ==> e is OutOfMemory,
{
    let mut out: Vec<WideImage> = Vec::new();
    let mut k: usize = 0;
    while k < images.len()
        invariant
            k <= images@.len(),
            out@.len() == k,
            forall|j: int| 0 <= j < images@.len() ==> (#[trigger] images@[j]).wf(),
            forall|j: int| 0 <= j < k ==> {
                &&& (#[trigger] out@[j]).wf()
                &&& out@[j].size_spec() == images@[j].size_spec()
                &&& forall|x: int, y: int|
                    0 <= x < out@[j].size_spec().0 && 0 <= y < out@[j].size_spec().1
                        ==> out@[j].pix(x, y) == images@[j].pix(x, y)
            },
        decreases images@.len() - k,
    {
        let im = images[k].to_image()?;
        out.push(im);
        k = k + 1;
    }
    Ok(out)
}

} // verus!
