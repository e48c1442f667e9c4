use crate::player::Span;
use vstd::prelude::*;

verus! {

/// The owner id of an unclaimed cell.
pub const UNCLAIMED: u128 = 0;

/// Whether `v` lies in `s`.
pub open spec fn in_span(v: int, s: Span) -> bool {
    s.start <= v < s.end
}

/// A `height` by `width` matrix of unclaimed cells.
pub open spec fn blank(width: nat, height: nat) -> Seq<Seq<u128>> {
    Seq::new(height, |y: int| Seq::new(width, |x: int| UNCLAIMED))
}

/// The cells `g` with every cell of the window `wx` by `wy` claimed by `id`.
pub open spec fn stamped(g: Seq<Seq<u128>>, id: u128, wx: Span, wy: Span) -> Seq<Seq<u128>> {
    Seq::new(
        g.len(),
        |y: int|
            Seq::new(
                g[y].len(),
                |x: int|
                    if in_span(x, wx) && in_span(y, wy) {
                        id
                    } else {
                        g[y][x]
                    },
            ),
    )
}

/// Whether a cell of the window `wx` by `wy` that is not in the window `px`
/// by `py` is already claimed in `g`.
pub open spec fn collides(g: Seq<Seq<u128>>, wx: Span, wy: Span, px: Span, py: Span) -> bool {
    exists|x: int, y: int|
        {
            &&& in_span(x, wx)
            &&& in_span(y, wy)
            &&& !(in_span(x, px) && in_span(y, py))
            &&& #[trigger] g[y][x] != UNCLAIMED
        }
}

/// Whether a cell of the window `wx` by `wy` that is not in the window `px`
/// by `py` holds an id other than `id` in `g`.
pub open spec fn overrun(g: Seq<Seq<u128>>, id: u128, wx: Span, wy: Span, px: Span, py: Span) -> bool {
    exists|x: int, y: int|
        {
            &&& in_span(x, wx)
            &&& in_span(y, wy)
            &&& !(in_span(x, px) && in_span(y, py))
            &&& #[trigger] g[y][x] != id
        }
}

/// The occupancy map: each cell holds the id of the player whose trail covers it.
#[derive(Clone, Debug)]
pub struct Grid {
    pub width: usize,
    pub height: usize,
    pub data: Vec<Vec<u128>>,
}

impl Grid {
    /// Every row holds `width` cells and there are `height` rows.
    pub open spec fn wf(&self) -> bool {
        &&& self.data@.len() == self.height
        &&& forall|y: int| 0 <= y < self.height ==> (#[trigger] self.data@[y])@.len() == self.width
    }

    /// The cells, row by row.
    pub open spec fn cells(&self) -> Seq<Seq<u128>> {
        Seq::new(self.data@.len(), |y: int| self.data@[y]@)
    }

    /// A grid of unclaimed cells.
    pub fn new(width: usize, height: usize) -> (r: Grid)
        ensures
            r.wf(),
            r.width == width,
            r.height == height,
            r.cells() == blank(width as nat, height as nat),
    {
        let mut data: Vec<Vec<u128>> = Vec::new();
        let mut y: usize = 0;
        while y < height
            invariant
                y <= height,
                data@.len() == y,
                forall|j: int| 0 <= j < y ==> (#[trigger] data@[j])@ == Seq::new(width as nat, |x: int| UNCLAIMED),
            decreases height - y,
        {
            let mut row: Vec<u128> = Vec::new();
            let mut x: usize = 0;
            while x < width
                invariant
                    x <= width,
                    row@ == Seq::new(x as nat, |i: int| UNCLAIMED),
                decreases width - x,
            {
                row.push(UNCLAIMED);
                x = x + 1;
                assert(row@ =~= Seq::new(x as nat, |i: int| UNCLAIMED));
            }
            data.push(row);
            y = y + 1;
        }
        let r = Grid { width, height, data };
        assert(r.cells() =~~= blank(width as nat, height as nat));
        r
    }

    /// Marks every cell unclaimed.
    pub fn clear(&mut self)
        requires
            old(self).wf(),
        ensures
            final(self).wf(),
            final(self).width == old(self).width,
            final(self).height == old(self).height,
            final(self).cells() == blank(old(self).width as nat, old(self).height as nat),
    {
        let mut y: usize = 0;
        while y < self.height
            invariant
                self.wf(),
                self.width == old(self).width,
                self.height == old(self).height,
                y <= self.height,
                forall|j: int| 0 <= j < y ==> (#[trigger] self.data@[j])@ == Seq::new(self.width as nat, |x: int| UNCLAIMED),
            decreases self.height - y,
        {
            let mut x: usize = 0;
            while x < self.width
                invariant
                    self.wf(),
                    self.width == old(self).width,
                    self.height == old(self).height,
                    y < self.height,
                    x <= self.width,
                    forall|j: int| 0 <= j < y ==> (#[trigger] self.data@[j])@ == Seq::new(self.width as nat, |x: int| UNCLAIMED),
                    forall|i: int| 0 <= i < x ==> self.data@[y as int]@[i] == UNCLAIMED,
                decreases self.width - x,
            {
                self.data[y][x] = UNCLAIMED;
                x = x + 1;
            }
            assert(self.data@[y as int]@ =~= Seq::new(self.width as nat, |x: int| UNCLAIMED));
            y = y + 1;
        }
        assert(self.cells() =~~= blank(self.width as nat, self.height as nat));
    }

    /// Claims every cell of the window `wx` by `wy` for `id`, and reports
    /// whether one of them outside the window `px` by `py` was already claimed.
    pub fn stamp(&mut self, id: u128, wx: Span, wy: Span, px: Span, py: Span) -> (hit: bool)
        requires
            old(self).wf(),
            wx.start <= wx.end <= old(self).width,
            wy.start <= wy.end <= old(self).height,
        ensures
            final(self).wf(),
            final(self).width == old(self).width,
            final(self).height == old(self).height,
            final(self).cells() == stamped(old(self).cells(), id, wx, wy),
            hit == collides(old(self).cells(), wx, wy, px, py),
    {
        let ghost g0 = self.cells();
        let mut hit = false;
        let mut y: usize = wy.start;
        while y < wy.end
            invariant
                self.wf(),
                self.width == old(self).width,
                self.height == old(self).height,
                g0 == old(self).cells(),
                g0.len() == self.height,
                forall|j: int| 0 <= j < self.height ==> (#[trigger] g0[j]).len() == self.width,
                wx.start <= wx.end <= self.width,
                wy.start <= y <= wy.end <= self.height,
                forall|j: int, i: int|
                    0 <= j < self.height && 0 <= i < self.width ==> #[trigger] self.data@[j]@[i] == if in_span(i, wx) && wy.start <= j < y {
                        id
                    } else {
                        g0[j][i]
                    },
                hit == exists|i: int, j: int|
                    {
                        &&& in_span(i, wx)
                        &&& wy.start <= j < y
                        &&& !(in_span(i, px) && in_span(j, py))
                        &&& #[trigger] g0[j][i] != UNCLAIMED
                    },
            decreases wy.end - y,
        {
            let mut x: usize = wx.start;
            while x < wx.end
                invariant
                    self.wf(),
                    self.width == old(self).width,
                    self.height == old(self).height,
                    g0.len() == self.height,
                    forall|j: int| 0 <= j < self.height ==> (#[trigger] g0[j]).len() == self.width,
                    wx.start <= x <= wx.end <= self.width,
                    wy.start <= y < wy.end <= self.height,
                    forall|j: int, i: int|
                        0 <= j < self.height && 0 <= i < self.width ==> #[trigger] self.data@[j]@[i] == if (in_span(i, wx) && wy.start <= j < y) || (j == y && wx.start <= i < x) {
                            id
                        } else {
                            g0[j][i]
                        },
                    hit == exists|i: int, j: int|
                        {
                            &&& in_span(i, wx)
                            &&& (wy.start <= j < y || (j == y && i < x))
                            &&& !(in_span(i, px) && in_span(j, py))
                            &&& #[trigger] g0[j][i] != UNCLAIMED
                        },
                decreases wx.end - x,
            {
                let outside = x < px.start || x >= px.end || y < py.start || y >= py.end;
                let claimed = self.data[y][x] != UNCLAIMED;
                assert(self.data@[y as int]@[x as int] == g0[y as int][x as int]);
                if outside && claimed {
                    hit = true;
                }
                self.data[y][x] = id;
                assert(hit == exists|i: int, j: int|
                    {
                        &&& in_span(i, wx)
                        &&& (wy.start <= j < y || (j == y && i < x + 1))
                        &&& !(in_span(i, px) && in_span(j, py))
                        &&& #[trigger] g0[j][i] != UNCLAIMED
                    }) by {
                    if outside && claimed {
                        assert(g0[y as int][x as int] != UNCLAIMED);
                    }
                }
                x = x + 1;
            }
            y = y + 1;
        }
        assert(self.cells() =~~= stamped(g0, id, wx, wy));
        hit
    }

    /// Whether a cell of the window `wx` by `wy` outside the window `px` by
    /// `py` holds an id other than `id`.
    pub fn foreign_in(&self, id: u128, wx: Span, wy: Span, px: Span, py: Span) -> (r: bool)
        requires
            self.wf(),
            wx.start <= wx.end <= self.width,
            wy.start <= wy.end <= self.height,
        ensures
            r == overrun(self.cells(), id, wx, wy, px, py),
    {
        let mut y: usize = wy.start;
        while y < wy.end
            invariant
                self.wf(),
                wx.start <= wx.end <= self.width,
                wy.start <= y <= wy.end <= self.height,
                forall|j: int, i: int|
                    in_span(i, wx) && wy.start <= j < y && !(in_span(i, px) && in_span(j, py))
                        ==> #[trigger] self.cells()[j][i] == id,
            decreases wy.end - y,
        {
            let mut x: usize = wx.start;
            while x < wx.end
                invariant
                    self.wf(),
                    wx.start <= x <= wx.end <= self.width,
                    wy.start <= y < wy.end <= self.height,
                    forall|j: int, i: int|
                        in_span(i, wx) && (wy.start <= j < y || (j == y && i < x)) && !(in_span(i, px) && in_span(j, py))
                            ==> #[trigger] self.cells()[j][i] == id,
                decreases wx.end - x,
            {
                let outside = x < px.start || x >= px.end || y < py.start || y >= py.end;
                if outside && self.data[y][x] != id {
                    assert(self.cells()[y as int][x as int] != id);
                    return true;
                }
                x = x + 1;
            }
            y = y + 1;
        }
        false
    }
}

} // verus!
