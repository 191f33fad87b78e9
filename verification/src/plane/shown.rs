//! What a plane shows at a position of the screen.

use vstd::prelude::*;
use crate::cell::{cell_egc, NcCell};
use crate::channel::{
    channel_default_p, channels_bchannel, channels_fchannel, ncchannel_default_p,
    ncchannels_bchannel, ncchannels_fchannel,
};
use crate::plane::{NcPlane, NcPlaneView};

verus! {

/// What a plane offers at one position: a glyph with its styles, and two
/// channels.
pub struct Shown {
    /// The glyph: empty where the plane has none to show.
    pub glyph: Seq<char>,
    /// The styles of the glyph.
    pub stylemask: u16,
    /// The columns of the glyph.
    pub width: u8,
    /// The foreground channel.
    pub fchannel: u32,
    /// The background channel.
    pub bchannel: u32,
}

/// Whether a plane covers the position `(y, x)` of the screen.
pub open spec fn covers(v: NcPlaneView, y: int, x: int) -> bool {
    v.y <= y < v.y + v.rows && v.x <= x < v.x + v.cols
}

/// The place among the cells of a plane of the cell that covers the
/// position `(y, x)` of the screen.
pub open spec fn covering_index(v: NcPlaneView, y: int, x: int) -> int {
    (y - v.y) * v.cols + (x - v.x)
}

/// What a plane shows at a position that it covers. Where the cell there
/// has no glyph, the glyph and styles of the base cell are shown; where a
/// channel of the cell is the default colour, the channel of the base cell
/// is shown.
pub open spec fn shown(v: NcPlaneView, y: int, x: int) -> Shown {
    let cell = v.cells[covering_index(v, y, x)];
    let own = cell_egc(v.pool, cell).len() > 0;
    let f = channels_fchannel(cell.channels);
    let b = channels_bchannel(cell.channels);
    Shown {
        glyph: if own {
            cell_egc(v.pool, cell)
        } else {
            cell_egc(v.pool, v.base)
        },
        stylemask: if own {
            cell.stylemask
        } else {
            v.base.stylemask
        },
        width: if own {
            cell.width
        } else {
            v.base.width
        },
        fchannel: if channel_default_p(f) {
            channels_fchannel(v.base.channels)
        } else {
            f
        },
        bchannel: if channel_default_p(b) {
            channels_bchannel(v.base.channels)
        } else {
            b
        },
    }
}

/// What a plane offers at one position, as it is handed out.
pub struct ShownCell {
    /// The glyph.
    pub glyph: String,
    /// The styles of the glyph.
    pub stylemask: u16,
    /// The columns of the glyph.
    pub width: u8,
    /// The foreground channel.
    pub fchannel: u32,
    /// The background channel.
    pub bchannel: u32,
}

impl View for ShownCell {
    type V = Shown;

    open spec fn view(&self) -> Shown {
        Shown {
            glyph: self.glyph@,
            stylemask: self.stylemask,
            width: self.width,
            fchannel: self.fchannel,
            bchannel: self.bchannel,
        }
    }
}

impl NcPlane {
    /// What the plane shows at the position `(y, x)` of the screen: nothing
    /// where it does not cover that position.
    pub fn shown_at(&self, y: u32, x: u32) -> (r: Option<ShownCell>)
        requires
            self.wf(),
        ensures
            r is Some <==> covers(self@, y as int, x as int),
            r matches Some(s) ==> s@ == shown(self@, y as int, x as int),
    {
        proof {
            self.lemma_wf_view();
        }
        let ty: i64 = y as i64;
        let tx: i64 = x as i64;
        let top: i64 = self.absy as i64;
        let left: i64 = self.absx as i64;
        if ty < top || ty >= top + self.rows as i64 || tx < left || tx >= left + self.cols as i64 {
            return None;
        }
        let dy: u32 = (ty - top) as u32;
        let dx: u32 = (tx - left) as u32;
        let i: usize = self.offset(dy, dx);
        let cell: NcCell = self.grid[i];
        let own_glyph: String = cell.strdup(self);
        let own: bool = !own_glyph.as_str().is_empty();
        let f: u32 = ncchannels_fchannel(cell.channels);
        let b: u32 = ncchannels_bchannel(cell.channels);
        let base: NcCell = self.base;
        Some(
            ShownCell {
                glyph: if own {
                    own_glyph
                } else {
                    base.strdup(self)
                },
                stylemask: if own {
                    cell.stylemask
                } else {
                    base.stylemask
                },
                width: if own {
                    cell.width
                } else {
                    base.width
                },
                fchannel: if ncchannel_default_p(f) {
                    ncchannels_fchannel(base.channels)
                } else {
                    f
                },
                bchannel: if ncchannel_default_p(b) {
                    ncchannels_bchannel(base.channels)
                } else {
                    b
                },
            },
        )
    }

    /// The base cell: what is shown where a cell of the plane is empty.
    /// Its cluster stays in the pool of the plane.
    pub fn base(&self) -> (cell: NcCell)
        ensures
            cell == self@.base,
    {
        self.base
    }

    /// Makes a copy of `cell` the base cell. The cluster that the base
    /// cell held is released; a cluster of `cell` that is in the pool gets
    /// a slot of its own.
    ///
    /// Fails with `CellEncodingError`, and changes nothing, when the
    /// cluster needs a slot and the pool is full.
    pub fn set_base(&mut self, cell: &NcCell) -> (r: crate::error::NcResult<()>)
        requires
            old(self).wf(),
        ensures
            final(self).wf(),
            r is Ok <==> crate::plane::cells::put_ok(old(self)@.pool, old(self)@.base, *cell),
            r is Ok ==> final(self)@ == (NcPlaneView {
                base: crate::plane::cells::put_cell_of(old(self)@.pool, old(self)@.base, *cell),
                pool: crate::plane::cells::put_pool_of(old(self)@.pool, old(self)@.base, *cell),
                ..old(self)@
            }),
            r matches Err(e) ==> e == crate::error::NcError::CellEncodingError && final(self)@
                == old(self)@,
    {
        let stored: NcCell = match self.stow(self.base, cell) {
            Ok(c) => c,
            Err(e) => {
                return Err(e);
            },
        };
        self.base = stored;
        Ok(())
    }
}

} // verus!
