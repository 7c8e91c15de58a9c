//! Monochrome pixel grid with XOR-plot and collision-detect semantics.
//!
//! Coordinates are never wrapped here: an out-of-range coordinate is ruled
//! out by the caller (the machine wraps sprite coordinates per axis before
//! plotting). The grid is stored flat, one cell per coordinate pair, so no
//! two coordinate pairs alias.

use vstd::prelude::*;

verus! {

/// A `width` x `height` grid of booleans; pixel (x, y) lives at flat index
/// `x * height + y` of `pixels`.
pub struct ScreenBuffer {
    width: u16,
    height: u16,
    pixels: Vec<bool>,
}

impl View for ScreenBuffer {
    type V = Seq<bool>;

    closed spec fn view(&self) -> Seq<bool> {
        self.pixels@
    }
}

impl ScreenBuffer {
    /// The grid width, in pixels.
    pub closed spec fn spec_width(&self) -> u16 {
        self.width
    }

    /// The grid height, in pixels.
    pub closed spec fn spec_height(&self) -> u16 {
        self.height
    }

    /// Flat index of pixel (x, y).
    pub open spec fn spec_index(&self, x: u16, y: u16) -> int {
        x * self.spec_height() + y
    }

    /// The value of pixel (x, y).
    pub open spec fn spec_pixel(&self, x: u16, y: u16) -> bool {
        self@[self.spec_index(x, y)]
    }

    /// The flat store holds exactly one cell per coordinate pair.
    pub open spec fn wf(&self) -> bool {
        self@.len() == self.spec_width() * self.spec_height()
    }

    /// Every in-range coordinate pair maps inside the flat store.
    pub proof fn lemma_index_in_range(&self, x: u16, y: u16)
        requires
            self.wf(),
            x < self.spec_width(),
            y < self.spec_height(),
        ensures
            0 <= self.spec_index(x, y) < self@.len(),
    {
        assert(0 <= x * self.spec_height() + y < self.spec_width() * self.spec_height())
            by (nonlinear_arith)
            requires
                x < self.spec_width(),
                y < self.spec_height(),
        ;
    }

    /// A buffer of the given dimensions with every pixel off.
    pub fn new(width: u16, height: u16) -> (r: Self)
        ensures
            r.wf(),
            r.spec_width() == width,
            r.spec_height() == height,
            forall|i: int| 0 <= i < r@.len() ==> !r@[i],
    {
        proof {
            assert(width as int * height as int <= 65535 * 65535) by (nonlinear_arith)
                requires
                    width <= 65535,
                    height <= 65535,
            ;
        }
        let size: usize = width as usize * height as usize;
        let mut pixels: Vec<bool> = Vec::new();
        let mut i: usize = 0;
        while i < size
            invariant
                i <= size,
                pixels@.len() == i,
                forall|j: int| 0 <= j < i ==> !pixels@[j],
            decreases size - i,
        {
            pixels.push(false);
            i += 1;
        }
        ScreenBuffer { width, height, pixels }
    }

    /// The grid width.
    pub fn width(&self) -> (r: u16)
        ensures
            r == self.spec_width(),
    {
        self.width
    }

    /// The grid height.
    pub fn height(&self) -> (r: u16)
        ensures
            r == self.spec_height(),
    {
        self.height
    }

    /// Turn every pixel off. This is the only way pixels go off outside of
    /// XOR-plotting.
    pub fn clear(&mut self)
        requires
            old(self).wf(),
        ensures
            final(self).wf(),
            final(self).spec_width() == old(self).spec_width(),
            final(self).spec_height() == old(self).spec_height(),
            forall|i: int| 0 <= i < final(self)@.len() ==> !final(self)@[i],
    {
        let len = self.pixels.len();
        let mut i: usize = 0;
        while i < len
            invariant
                i <= len,
                self.pixels@.len() == len,
                self.width == old(self).width,
                self.height == old(self).height,
                forall|j: int| 0 <= j < i ==> !self.pixels@[j],
            decreases len - i,
        {
            self.pixels.set(i, false);
            i += 1;
        }
    }

    /// Exactly what one XOR-plot does: pixel (x, y) is toggled, nothing else
    /// moves, and the returned bit is the pixel's previous value (true means
    /// a collision: an on-pixel was turned off).
    pub open spec fn xor_rel(pre: ScreenBuffer, post: ScreenBuffer, x: u16, y: u16, r: bool) -> bool {
        &&& post.spec_width() == pre.spec_width()
        &&& post.spec_height() == pre.spec_height()
        &&& post@ == pre@.update(pre.spec_index(x, y), !pre@[pre.spec_index(x, y)])
        &&& r == pre@[pre.spec_index(x, y)]
    }

    /// Toggle pixel (x, y) and return its previous value.
    pub fn xor(&mut self, x: u16, y: u16) -> (r: bool)
        requires
            old(self).wf(),
            x < old(self).spec_width(),
            y < old(self).spec_height(),
        ensures
            final(self).wf(),
            Self::xor_rel(*old(self), *final(self), x, y, r),
    {
        let len = self.pixels.len();
        proof {
            self.lemma_index_in_range(x, y);
            assert(x as int * self.spec_height() as int <= self.spec_index(x, y));
        }
        let index: usize = x as usize * self.height as usize + y as usize;
        let result = self.pixels[index];
        self.pixels.set(index, !result);
        result
    }

    /// Read pixel (x, y).
    pub fn get_pixel(&self, x: u16, y: u16) -> (r: bool)
        requires
            self.wf(),
            x < self.spec_width(),
            y < self.spec_height(),
        ensures
            r == self.spec_pixel(x, y),
    {
        let len = self.pixels.len();
        proof {
            self.lemma_index_in_range(x, y);
            assert(x as int * self.spec_height() as int <= self.spec_index(x, y));
        }
        let index: usize = x as usize * self.height as usize + y as usize;
        self.pixels[index]
    }

    /// Toggling the same pixel twice restores the buffer exactly, and the
    /// second toggle reports the value left behind by the first one.
    pub proof fn lemma_xor_twice(s0: ScreenBuffer, s1: ScreenBuffer, s2: ScreenBuffer, x: u16, y: u16, r1: bool, r2: bool)
        requires
            s0.wf(),
            x < s0.spec_width(),
            y < s0.spec_height(),
            Self::xor_rel(s0, s1, x, y, r1),
            Self::xor_rel(s1, s2, x, y, r2),
        ensures
            s2@ == s0@,
            r2 == !r1,
            forall|x2: u16, y2: u16|
                x2 < s0.spec_width() && y2 < s0.spec_height()
                    ==> s2.spec_pixel(x2, y2) == s0.spec_pixel(x2, y2),
    {
        s0.lemma_index_in_range(x, y);
        assert(s2@ =~= s0@);
    }
}

} // verus!
