//! Danmaku display settings and the row allocation of centred danmaku.

use vstd::prelude::*;

verus! {

#[derive(Clone, Copy, Debug, Default, PartialEq, Eq, Structural)]
pub enum DanmakuMode {
    #[default]
    Scroll,
    TopCenter,
    BottomCenter,
}

/// How much of the screen danmaku may cover.
#[derive(Clone, Copy, Debug, Default, PartialEq, Eq, Structural)]
pub enum Intensity {
    Quarter,
    #[default]
    Half,
    Full,
    Overlay,
}

impl Intensity {
    /// Whether danmaku may be drawn over one another when every row is taken.
    pub fn allows_overlay(self) -> (overlay: bool)
        ensures
            overlay == (self == Intensity::Overlay),
    {
        match self {
            Intensity::Overlay => true,
            _ => false,
        }
    }
}

/// The intensity at a settings index: the four intensities in order, and the default for
/// any other index.
pub open spec fn intensity_at(index: u32) -> Intensity {
    if index == 0 {
        Intensity::Quarter
    } else if index == 1 {
        Intensity::Half
    } else if index == 2 {
        Intensity::Full
    } else if index == 3 {
        Intensity::Overlay
    } else {
        Intensity::Half
    }
}

impl From<u32> for Intensity {
    fn from(index: u32) -> (intensity: Intensity) {
        match index {
            0 => Intensity::Quarter,
            1 => Intensity::Half,
            2 => Intensity::Full,
            3 => Intensity::Overlay,
            _ => Intensity::Half,
        }
    }
}

impl vstd::std_specs::convert::FromSpecImpl<u32> for Intensity {
    open spec fn obeys_from_spec() -> bool {
        true
    }

    open spec fn from_spec(index: u32) -> Intensity {
        intensity_at(index)
    }
}

#[derive(Clone, Copy, Debug, PartialEq, Eq, Structural)]
pub struct Color {
    pub r: u8,
    pub g: u8,
    pub b: u8,
    pub a: u8,
}

impl Default for Color {
    /// Opaque white.
    fn default() -> (color: Color)
        ensures
            color == (Color { r: 255, g: 255, b: 255, a: 255 }),
    {
        Color { r: 255, g: 255, b: 255, a: 255 }
    }
}

/// The rows of a centred danmaku band: which are taken, and where overlaid danmaku go when
/// every row is taken.
pub struct CenterRowTracker {
    occupied: Vec<bool>,
    overlay_hint: usize,
}

impl CenterRowTracker {
    /// Whether each row is taken.
    pub closed spec fn rows(&self) -> Seq<bool> {
        self.occupied@
    }

    /// How many danmaku were overlaid so far, wrapping.
    pub closed spec fn overlays(&self) -> usize {
        self.overlay_hint
    }

    /// `max_rows` free rows.
    pub fn new(max_rows: usize) -> (tracker: CenterRowTracker)
        ensures
            tracker.rows() == Seq::new(max_rows as nat, |i: int| false),
            tracker.overlays() == 0,
    {
        let occupied = vec![false; max_rows];
        let tracker = CenterRowTracker { occupied, overlay_hint: 0 };
        assert(tracker.rows() =~= Seq::new(max_rows as nat, |i: int| false));
        tracker
    }

    pub fn max_rows(&self) -> (rows: usize)
        ensures
            rows == self.rows().len(),
    {
        self.occupied.len()
    }

    /// Takes the first free row. When every row is taken and overlay is allowed, overlays the
    /// next row in turn, leaving every row taken.
    pub fn find_row(&mut self, allow_overlay: bool) -> (row: Option<usize>)
        ensures
            match row {
                Some(r) => if exists|i: int| 0 <= i < old(self).rows().len() && !#[trigger] old(self).rows()[i] {
                    &&& r < old(self).rows().len()
                    &&& !old(self).rows()[r as int]
                    &&& forall|i: int| 0 <= i < r ==> #[trigger] old(self).rows()[i]
                    &&& final(self).rows() == old(self).rows().update(r as int, true)
                    &&& final(self).overlays() == old(self).overlays()
                } else {
                    &&& allow_overlay
                    &&& old(self).rows().len() > 0
                    &&& r as int == (old(self).overlays() as int) % (old(self).rows().len() as int)
                    &&& final(self).rows() == old(self).rows()
                    &&& final(self).overlays() == (if old(self).overlays() < usize::MAX {
                        old(self).overlays() + 1
                    } else {
                        0
                    })
                },
                None => {
                    &&& forall|i: int| 0 <= i < old(self).rows().len() ==> #[trigger] old(self).rows()[i]
                    &&& (!allow_overlay || old(self).rows().len() == 0)
                    &&& final(self).rows() == old(self).rows()
                    &&& final(self).overlays() == old(self).overlays()
                },
            },
    {
        let mut i: usize = 0;
        while i < self.occupied.len()
            invariant
                i <= self.occupied@.len(),
                self.occupied@ == old(self).occupied@,
                self.overlay_hint == old(self).overlay_hint,
                forall|k: int| 0 <= k < i ==> #[trigger] self.occupied@[k],
            decreases self.occupied.len() - i,
        {
            if !self.occupied[i] {
                proof {
                    assert(!old(self).rows()[i as int]);
                }
                self.occupied.set(i, true);
                return Some(i);
            }
            i += 1;
        }
        proof {
            assert(!exists|k: int| 0 <= k < old(self).rows().len() && !#[trigger] old(self).rows()[k]);
        }
        if allow_overlay && self.occupied.len() > 0 {
            let row = self.overlay_hint % self.occupied.len();
            self.overlay_hint = self.overlay_hint.wrapping_add(1);
            Some(row)
        } else {
            None
        }
    }

    /// Frees `row`, when there is such a row.
    pub fn release(&mut self, row: usize)
        ensures
            final(self).rows() == (if row < old(self).rows().len() {
                old(self).rows().update(row as int, false)
            } else {
                old(self).rows()
            }),
            final(self).overlays() == old(self).overlays(),
    {
        if row < self.occupied.len() {
            self.occupied.set(row, false);
        }
    }

    /// Keeps the first `size` rows, adding free rows up to `size`.
    pub fn resize(&mut self, size: usize)
        ensures
            final(self).rows().len() == size,
            forall|i: int|
                0 <= i < size ==> #[trigger] final(self).rows()[i] == (i < old(self).rows().len()
                    && old(self).rows()[i]),
            final(self).overlays() == old(self).overlays(),
    {
        let ghost before = self.occupied@;
        self.occupied.resize(size, false);
        proof {
            if size > before.len() {
                assert forall|i: int| 0 <= i < size implies #[trigger] self.occupied@[i] == (i < before.len() && before[i]) by {
                    if i < before.len() {
                        assert(self.occupied@.subrange(0, before.len() as int)[i] == self.occupied@[i]);
                    }
                }
            }
        }
    }

    /// Frees every row.
    pub fn clear(&mut self)
        ensures
            final(self).rows() == Seq::new(old(self).rows().len(), |i: int| false),
            final(self).overlays() == old(self).overlays(),
    {
        let mut i: usize = 0;
        while i < self.occupied.len()
            invariant
                i <= self.occupied@.len(),
                self.occupied@.len() == old(self).occupied@.len(),
                self.overlay_hint == old(self).overlay_hint,
                forall|k: int| 0 <= k < i ==> !#[trigger] self.occupied@[k],
            decreases self.occupied.len() - i,
        {
            self.occupied.set(i, false);
            i += 1;
        }
        assert(self.occupied@ =~= Seq::new(old(self).occupied@.len(), |i: int| false));
    }
}

/// Releasing the row that `find_row` took from the free rows gives the rows back as they
/// were.
pub proof fn lemma_release_undoes_taking_a_free_row(rows: Seq<bool>, row: int)
    requires
        0 <= row < rows.len(),
        !rows[row],
    ensures
        rows.update(row, true).update(row, false) == rows,
{
    assert(rows.update(row, true).update(row, false) =~= rows);
}

} // verus!
