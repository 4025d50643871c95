use vstd::prelude::*;

verus! {

/// Screen height in pixels.
pub const NROWS: usize = 32;

/// Screen width in pixels.
pub const NCOLS: usize = 64;

/// The monochrome framebuffer: a 64x32 grid of pixel states, stored row by
/// row, so pixel (x, y) sits at index `y * NCOLS + x` of the view.
/// Pixels are written by XOR: turning on a pixel that is already on turns
/// it off instead, and that event is reported as a collision.
pub struct Screen {
    pub pixels: Vec<bool>,
}

impl View for Screen {
    type V = Seq<bool>;

    open spec fn view(&self) -> Seq<bool> {
        self.pixels@
    }
}

impl Screen {
    /// A screen holds exactly one pixel per grid cell.
    pub open spec fn wf(&self) -> bool {
        self@.len() == NROWS * NCOLS
    }

    /// A fresh, all-off screen.
    pub fn new() -> (r: Screen)
        ensures
            r.wf(),
            forall|p: int| 0 <= p < NROWS * NCOLS ==> !r@[p],
    {
        let mut pixels: Vec<bool> = Vec::new();
        let mut k: usize = 0;
        while k < NROWS * NCOLS
            invariant
                k <= NROWS * NCOLS,
                pixels@.len() == k,
                forall|p: int| 0 <= p < k ==> !pixels@[p],
            decreases NROWS * NCOLS - k,
        {
            pixels.push(false);
            k = k + 1;
        }
        Screen { pixels }
    }

    /// Turns every pixel off.
    pub fn clear(&mut self)
        requires
            old(self).wf(),
        ensures
            final(self).wf(),
            forall|p: int| 0 <= p < NROWS * NCOLS ==> !final(self)@[p],
    {
        let mut k: usize = 0;
        while k < NROWS * NCOLS
            invariant
                self.wf(),
                k <= NROWS * NCOLS,
                forall|p: int| 0 <= p < k ==> !self@[p],
            decreases NROWS * NCOLS - k,
        {
            self.pixels.set(k, false);
            k = k + 1;
        }
    }

    /// XOR-toggles the pixel at (x, y) and hands back its previous state,
    /// or `None`, leaving the screen alone, when the coordinates fall off
    /// the grid.
    pub fn flip(&mut self, x: usize, y: usize) -> (r: Option<bool>)
        requires
            old(self).wf(),
        ensures
            final(self).wf(),
            x >= NCOLS || y >= NROWS ==> r == Option::<bool>::None && final(self)@ == old(self)@,
            x < NCOLS && y < NROWS ==> {
                let p = y * NCOLS + x;
                r == Some(old(self)@[p]) && final(self)@ == old(self)@.update(p, !old(self)@[p])
            },
    {
        if x >= NCOLS || y >= NROWS {
            None
        } else {
            let p = y * NCOLS + x;
            proof {
                assert(y * NCOLS + x < NROWS * NCOLS) by (nonlinear_arith)
                    requires
                        x < NCOLS,
                        y < NROWS,
                        NCOLS == 64,
                        NROWS == 32,
                ;
            }
            let out = self.pixels[p];
            self.pixels.set(p, !out);
            Some(out)
        }
    }
}

} // verus!
