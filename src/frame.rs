//! The image buffer owned by the single writer: a `width x height` grid of
//! 8-bit colors that receives every pixel exactly once, at disjoint
//! coordinates, from the workers' results.
use vstd::prelude::*;
use crate::pixel::{Pixel, RBG};

verus! {

/// Why a pixel result was refused.
#[derive(Clone, Copy, Debug, PartialEq, Eq, Structural)]
pub enum FrameError {
    /// Its coordinates lie outside the grid.
    OutOfBounds,
    /// A result for the same coordinates was already accepted.
    AlreadyWritten,
    /// Fewer results than pixels arrived.
    Incomplete,
}

/// Result `k` of `results` cannot be stored: it lies outside the grid or
/// repeats the coordinates of an earlier result.
pub open spec fn refused_at(results: Seq<Pixel>, width: u32, height: u32, k: int) -> bool {
    results[k].x >= width || results[k].y >= height || exists|j: int|
        0 <= j < k && (#[trigger] results[j]).x == results[k].x && results[j].y == results[k].y
}

/// The error for a refused result.
pub open spec fn refusal(p: Pixel, width: u32, height: u32) -> FrameError {
    if p.x >= width || p.y >= height {
        FrameError::OutOfBounds
    } else {
        FrameError::AlreadyWritten
    }
}

/// The number of `true` entries of `s`.
pub open spec fn count_true(s: Seq<bool>) -> nat
    decreases s.len(),
{
    if s.len() == 0 {
        0
    } else {
        count_true(s.drop_last()) + if s.last() {
            1nat
        } else {
            0nat
        }
    }
}

proof fn lemma_count_bounds(s: Seq<bool>)
    ensures
        count_true(s) <= s.len(),
        count_true(s) == s.len() <==> forall|k: int| 0 <= k < s.len() ==> #[trigger] s[k],
    decreases s.len(),
{
    if s.len() > 0 {
        let f = s.drop_last();
        lemma_count_bounds(f);
        assert forall|k: int| 0 <= k < f.len() implies #[trigger] f[k] == s[k] by {}
        if count_true(s) == s.len() {
            assert forall|k: int| 0 <= k < s.len() implies #[trigger] s[k] by {
                if k < f.len() {
                    assert(f[k]);
                }
            }
        }
        if forall|k: int| 0 <= k < s.len() ==> #[trigger] s[k] {
            assert(s[s.len() - 1]);
            assert forall|k: int| 0 <= k < f.len() implies #[trigger] f[k] by {
                assert(s[k]);
            }
        }
    }
}

proof fn lemma_count_set(s: Seq<bool>, i: int)
    requires
        0 <= i < s.len(),
        !s[i],
    ensures
        count_true(s.update(i, true)) == count_true(s) + 1,
    decreases s.len(),
{
    let t = s.update(i, true);
    if i == s.len() - 1 {
        assert(t.drop_last() =~= s.drop_last());
    } else {
        lemma_count_set(s.drop_last(), i);
        assert(t.drop_last() =~= s.drop_last().update(i, true));
    }
}

/// The grid. Pixel `(x, y)` is stored at row-major position `y * width + x`.
pub struct ImageGrid {
    width: u32,
    height: u32,
    colors: Vec<RBG>,
    written: Vec<bool>,
    filled: usize,
}

/// Row-major position of `(x, y)` in a grid of the given width.
pub open spec fn slot(width: int, x: int, y: int) -> int {
    y * width + x
}

impl ImageGrid {
    pub closed spec fn spec_width(&self) -> nat {
        self.width as nat
    }

    pub closed spec fn spec_height(&self) -> nat {
        self.height as nat
    }

    /// The number of pixels of the grid.
    pub open spec fn size(&self) -> nat {
        self.spec_width() * self.spec_height()
    }

    /// The color stored at each row-major position.
    pub closed spec fn colors_view(&self) -> Seq<RBG> {
        self.colors@
    }

    /// Which row-major positions have been written.
    pub closed spec fn written_view(&self) -> Seq<bool> {
        self.written@
    }

    /// The number of pixels written so far.
    pub closed spec fn filled_view(&self) -> nat {
        self.filled as nat
    }

    pub closed spec fn wf(&self) -> bool {
        &&& self.colors@.len() == self.size()
        &&& self.written@.len() == self.size()
        &&& self.filled as nat == count_true(self.written@)
    }

    /// The stored color of `(x, y)`, if it has been written.
    pub open spec fn pixel_at(&self, x: int, y: int) -> Option<RBG> {
        if 0 <= x < self.spec_width() && 0 <= y < self.spec_height() && self.written_view()[slot(
            self.spec_width() as int,
            x,
            y,
        )] {
            Some(self.colors_view()[slot(self.spec_width() as int, x, y)])
        } else {
            None
        }
    }

    /// Every pixel of the grid has been written.
    pub open spec fn complete(&self) -> bool {
        forall|k: int| 0 <= k < self.size() ==> #[trigger] self.written_view()[k]
    }

    /// An empty grid of `width x height` pixels, none of them written.
    pub fn new(width: u32, height: u32) -> (g: ImageGrid)
        requires
            width as int * height as int <= usize::MAX,
        ensures
            g.wf(),
            g.spec_width() == width,
            g.spec_height() == height,
            g.filled_view() == 0,
            forall|x: int, y: int| #[trigger] g.pixel_at(x, y) == None::<RBG>,
    {
        let n: usize = (width as usize) * (height as usize);
        let mut colors: Vec<RBG> = Vec::with_capacity(n);
        let mut written: Vec<bool> = Vec::with_capacity(n);
        let mut k: usize = 0;
        while k < n
            invariant
                k <= n,
                colors@.len() == k,
                written@.len() == k,
                forall|j: int| 0 <= j < k ==> !#[trigger] written@[j],
                count_true(written@) == 0,
            decreases n - k,
        {
            colors.push(RBG::black());
            proof {
                let w0 = written@;
                assert(w0.push(false).drop_last() =~= w0);
            }
            written.push(false);
            k = k + 1;
        }
        let g = ImageGrid { width, height, colors, written, filled: 0 };
        assert forall|x: int, y: int| #[trigger] g.pixel_at(x, y) == None::<RBG> by {
            if 0 <= x < width && 0 <= y < height {
                lemma_slot_in_grid(width as int, height as int, x, y);
            }
        }
        g
    }

    pub fn width(&self) -> (r: u32)
        ensures
            r == self.spec_width(),
    {
        self.width
    }

    pub fn height(&self) -> (r: u32)
        ensures
            r == self.spec_height(),
    {
        self.height
    }

    /// How many pixels have been written.
    pub fn filled(&self) -> (r: usize)
        requires
            self.wf(),
        ensures
            r == self.filled_view(),
            r == count_true(self.written_view()),
    {
        self.filled
    }

    /// Whether all `width * height` pixels have arrived.
    pub fn is_complete(&self) -> (r: bool)
        requires
            self.wf(),
        ensures
            r == self.complete(),
            r == (self.filled_view() == self.size()),
    {
        proof {
            lemma_count_bounds(self.written@);
            if self.complete() {
                assert forall|k: int| 0 <= k < self.written@.len() implies #[trigger] self.written@[k] by {
                    assert(self.written_view()[k]);
                }
            }
            if self.filled == self.colors@.len() {
                assert forall|k: int| 0 <= k < self.size() implies #[trigger] self.written_view()[k] by {
                    assert(self.written@[k]);
                }
            }
        }
        self.filled == self.colors.len()
    }

    /// The color of `(x, y)`, if a result for it has been accepted.
    pub fn get(&self, x: u32, y: u32) -> (r: Option<RBG>)
        requires
            self.wf(),
        ensures
            r == self.pixel_at(x as int, y as int),
    {
        if x >= self.width || y >= self.height {
            return None;
        }
        proof {
            lemma_slot_in_grid(self.width as int, self.height as int, x as int, y as int);
            assert(self.colors@.len() == self.width as int * self.height as int);
        }
        let n: usize = self.colors.len();
        assert(y as int * self.width as int <= n);
        let k: usize = y as usize * self.width as usize + x as usize;
        if self.written[k] {
            Some(self.colors[k])
        } else {
            None
        }
    }

    /// Stores one worker's result. It is refused when its coordinates lie
    /// outside the grid or when that pixel was already written; otherwise
    /// exactly that pixel changes, to the result's color.
    pub fn accept(&mut self, p: Pixel) -> (r: Result<(), FrameError>)
        requires
            old(self).wf(),
        ensures
            final(self).wf(),
            final(self).spec_width() == old(self).spec_width(),
            final(self).spec_height() == old(self).spec_height(),
            (p.x >= old(self).spec_width() || p.y >= old(self).spec_height()) ==> r == Err::<
                (),
                FrameError,
            >(FrameError::OutOfBounds),
            (p.x < old(self).spec_width() && p.y < old(self).spec_height() && old(self).pixel_at(
                p.x as int,
                p.y as int,
            ) is Some) ==> r == Err::<(), FrameError>(FrameError::AlreadyWritten),
            r is Err ==> *final(self) == *old(self),
            (p.x < old(self).spec_width() && p.y < old(self).spec_height() && old(self).pixel_at(
                p.x as int,
                p.y as int,
            ) is None) ==> {
                &&& r is Ok
                &&& final(self).filled_view() == old(self).filled_view() + 1
                &&& forall|x: int, y: int| #[trigger]
                    final(self).pixel_at(x, y) == if x == p.x && y == p.y {
                        Some(p.color)
                    } else {
                        old(self).pixel_at(x, y)
                    }
            },
    {
        if p.x >= self.width || p.y >= self.height {
            return Err(FrameError::OutOfBounds);
        }
        let ghost w = self.width as int;
        let ghost h = self.height as int;
        proof {
            lemma_slot_in_grid(w, h, p.x as int, p.y as int);
            assert(self.colors@.len() == w * h);
        }
        let n: usize = self.colors.len();
        assert(p.y as int * w <= n);
        let k: usize = p.y as usize * self.width as usize + p.x as usize;
        if self.written[k] {
            return Err(FrameError::AlreadyWritten);
        }
        let ghost before = *self;
        proof {
            lemma_count_set(self.written@, k as int);
            lemma_count_bounds(self.written@);
        }
        self.colors.set(k, p.color);
        self.written.set(k, true);
        self.filled = self.filled + 1;
        assert forall|x: int, y: int| #[trigger]
            self.pixel_at(x, y) == if x == p.x && y == p.y {
                Some(p.color)
            } else {
                before.pixel_at(x, y)
            } by {
            if 0 <= x < w && 0 <= y < h {
                lemma_slot_in_grid(w, h, x, y);
                lemma_slot_injective(w, x, y, p.x as int, p.y as int);
            }
        }
        Ok(())
    }
}

/// The single writer's work: stores every worker result, in arrival order,
/// into a fresh `width x height` grid. The first result that cannot be
/// stored decides the error; when all are stored but some pixel is still
/// missing the error is `Incomplete`; otherwise the complete grid holds
/// each result's color at its coordinates.
pub fn assemble(width: u32, height: u32, results: &Vec<Pixel>) -> (r: Result<ImageGrid, FrameError>)
    requires
        width as int * height as int <= usize::MAX,
    ensures
        forall|k: int|
            0 <= k < results@.len() && #[trigger] refused_at(results@, width, height, k) && (
            forall|j: int| 0 <= j < k ==> !refused_at(results@, width, height, j)) ==> r == Err::<
                ImageGrid,
                FrameError,
            >(refusal(results@[k], width, height)),
        (forall|k: int| 0 <= k < results@.len() ==> !refused_at(results@, width, height, k)) ==> (
        r is Ok <==> results@.len() == width as int * height as int),
        (forall|k: int| 0 <= k < results@.len() ==> !refused_at(results@, width, height, k))
            && results@.len() != width as int * height as int ==> r == Err::<ImageGrid, FrameError>(
            FrameError::Incomplete,
        ),
        r matches Ok(g) ==> {
            &&& g.wf()
            &&& g.complete()
            &&& g.spec_width() == width
            &&& g.spec_height() == height
            &&& forall|k: int|
                0 <= k < results@.len() ==> g.pixel_at(
                    (#[trigger] results@[k]).x as int,
                    results@[k].y as int,
                ) == Some(results@[k].color)
        },
{
    let mut grid = ImageGrid::new(width, height);
    let mut i: usize = 0;
    while i < results.len()
        invariant
            i <= results@.len(),
            grid.wf(),
            grid.spec_width() == width,
            grid.spec_height() == height,
            grid.filled_view() == i,
            forall|j: int| 0 <= j < i ==> !#[trigger] refused_at(results@, width, height, j),
            forall|j: int|
                0 <= j < i ==> grid.pixel_at(
                    (#[trigger] results@[j]).x as int,
                    results@[j].y as int,
                ) == Some(results@[j].color),
            forall|x: int, y: int|
                (#[trigger] grid.pixel_at(x, y)) is Some ==> exists|j: int|
                    0 <= j < i && (#[trigger] results@[j]).x == x && results@[j].y == y,
        decreases results@.len() - i,
    {
        let p = results[i];
        let ghost before = grid;
        proof {
            if p.x < width && p.y < height {
                if before.pixel_at(p.x as int, p.y as int) is None {
                    assert forall|j: int|
                        0 <= j < i && (#[trigger] results@[j]).x == p.x implies results@[j].y
                        != p.y by {
                        if results@[j].y == p.y {
                            assert(before.pixel_at(results@[j].x as int, results@[j].y as int)
                                == Some(results@[j].color));
                        }
                    }
                } else {
                    let j = choose|j: int|
                        0 <= j < i && (#[trigger] results@[j]).x == p.x && results@[j].y == p.y;
                    assert(refused_at(results@, width, height, i as int));
                }
            }
        }
        match grid.accept(p) {
            Err(e) => {
                proof {
                    assert(refused_at(results@, width, height, i as int));
                    assert forall|k: int|
                        0 <= k < results@.len() && #[trigger] refused_at(results@, width, height, k)
                            && (forall|j: int|
                            0 <= j < k ==> !refused_at(results@, width, height, j)) implies k == i by {
                        if k > i {
                            assert(!refused_at(results@, width, height, i as int));
                        }
                    }
                }
                return Err(e);
            },
            Ok(()) => {},
        }
        proof {
            assert(!refused_at(results@, width, height, i as int));
            assert forall|x: int, y: int|
                (#[trigger] grid.pixel_at(x, y)) is Some implies exists|j: int|
                    0 <= j < i + 1 && (#[trigger] results@[j]).x == x && results@[j].y == y by {
                if x == p.x && y == p.y {
                    assert(results@[i as int] == p);
                } else {
                    assert(before.pixel_at(x, y) is Some);
                }
            }
        }
        i = i + 1;
    }
    if grid.is_complete() {
        Ok(grid)
    } else {
        Err(FrameError::Incomplete)
    }
}

proof fn lemma_slot_in_grid(w: int, h: int, x: int, y: int)
    requires
        0 <= x < w,
        0 <= y < h,
    ensures
        0 <= slot(w, x, y) < w * h,
        0 <= y * w <= slot(w, x, y),
{
    assert(y * w + x < w * h) by (nonlinear_arith)
        requires
            0 <= x < w,
            0 <= y < h,
    ;
    assert(0 <= y * w) by (nonlinear_arith)
        requires
            0 <= y,
            0 <= w,
    ;
}

proof fn lemma_slot_injective(w: int, x1: int, y1: int, x2: int, y2: int)
    requires
        0 <= x1 < w,
        0 <= x2 < w,
        0 <= y1,
        0 <= y2,
    ensures
        slot(w, x1, y1) == slot(w, x2, y2) <==> (x1 == x2 && y1 == y2),
{
    if y1 < y2 {
        assert(y1 * w + w <= y2 * w) by (nonlinear_arith)
            requires
                y1 < y2,
                0 <= w,
        ;
    } else if y2 < y1 {
        assert(y2 * w + w <= y1 * w) by (nonlinear_arith)
            requires
                y2 < y1,
                0 <= w,
        ;
    }
}

} // verus!
