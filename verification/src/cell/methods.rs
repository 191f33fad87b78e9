//! What can be done with a cell.

use vstd::prelude::*;
use vstd::string::{StrSliceExecFns, StringExecFns};
use crate::cell::{
    cell_cleared, cell_cols, cell_egc, empty_cell, lemma_load_shows_cluster,
    lemma_scalar_of_char, load_cell, load_ok, load_pool, pool_released, NcCell, NCCELL_POOL_FLAG,
};
use crate::channel::{
    lemma_channel_alpha, lemma_channel_default, lemma_channel_palindex, lemma_channel_rgb,
    lemma_channel_rgb8, lemma_channels_halves, NCALPHA_BG_ALPHA_MASK, NCALPHA_BG_RGB_MASK,
    bg_alpha_of, channel_alpha, channel_b, channel_default_p, channel_g, channel_palindex,
    channel_palindex_p, channel_r, channel_rgb, channel_with_alpha, channel_with_default,
    channel_with_palindex, channel_with_rgb, channels_bchannel, channels_fchannel,
    channels_with_bchannel, channels_with_fchannel, ncchannel_alpha, ncchannel_default_p,
    ncchannel_palindex, ncchannel_palindex_p, ncchannel_rgb, ncchannel_rgb8,
    ncchannel_set_alpha, ncchannel_set_default, ncchannel_set_palindex, ncchannel_set_rgb,
    ncchannel_set_rgb8, ncchannels_bchannel, ncchannels_fchannel, ncchannels_set_bchannel,
    ncchannels_set_fchannel, rgb_of, NCALPHA_HIGHCONTRAST, NCALPHA_OPAQUE,
};
use crate::egc::{
    first_cluster, first_cluster_len, is_base, lemma_first_cluster_len, lemma_utf8_len_bound,
    measure_first_cluster, scalar_columns, scalar_from_u32, scalar_is_control,
    scalar_is_extender, scalar_width, string_push, utf8_bytes, utf8_len,
};
use crate::error::{NcError, NcResult};
use crate::plane::{lemma_first_free, NcPlane, NcPlaneView, NCPLANE_POOL_SLOTS};

verus! {

impl NcCell {
    /// A cell that shows one 7-bit character, with no style and default
    /// colours. Fails with `CellEncodingError` for any other character.
    pub fn from_char7b(ch: char) -> (r: NcResult<NcCell>)
        ensures
            r is Ok <==> (ch as u32) < 0x80,
            r matches Ok(c) ==> c == (NcCell { gcluster: ch as u32, ..empty_cell() }),
            r matches Err(e) ==> e == NcError::CellEncodingError,
    {
        if ch as u32 >= 0x80 {
            return Err(NcError::CellEncodingError);
        }
        Ok(
            NcCell {
                gcluster: ch as u32,
                gcluster_backstop: 0,
                width: 0,
                stylemask: 0,
                channels: 0,
            },
        )
    }

    /// A cell that shows one character, with no style and default
    /// colours. Fails with `CellEncodingError` for a character that cannot
    /// stand alone: a control character or a combining mark. The plane is
    /// where the cell will live; one character never needs its pool.
    pub fn from_char(plane: &mut NcPlane, ch: char) -> (r: NcResult<NcCell>)
        requires
            old(plane).wf(),
        ensures
            *final(plane) == *old(plane),
            r is Ok <==> is_base(ch),
            r matches Ok(c) ==> c == (NcCell {
                gcluster: ch as u32,
                width: scalar_columns(ch),
                ..empty_cell()
            }) && cell_egc(final(plane)@.pool, c) == seq![ch],
            r matches Err(e) ==> e == NcError::CellEncodingError,
    {
        if scalar_is_control(ch) || scalar_is_extender(ch) {
            return Err(NcError::CellEncodingError);
        }
        proof {
            lemma_scalar_of_char(ch);
        }
        Ok(
            NcCell {
                gcluster: ch as u32,
                gcluster_backstop: 0,
                width: scalar_width(ch),
                stylemask: 0,
                channels: 0,
            },
        )
    }

    /// A cell that shows the first cluster of a text, with no style and
    /// default colours. A cluster of more than one scalar goes to the pool
    /// of the plane. Fails with `CellEncodingError` when the cluster is
    /// malformed or too long, or when the pool is full.
    pub fn from_str(plane: &mut NcPlane, string: &str) -> (r: NcResult<NcCell>)
        requires
            old(plane).wf(),
        ensures
            final(plane).wf(),
            final(plane)@ == (NcPlaneView {
                pool: load_pool(old(plane)@.pool, empty_cell(), string@),
                ..old(plane)@
            }),
            r is Ok <==> load_ok(old(plane)@.pool, empty_cell(), string@),
            r matches Ok(c) ==> c == load_cell(old(plane)@.pool, empty_cell(), string@)
                && cell_egc(final(plane)@.pool, c) == first_cluster(string@),
            r matches Err(e) ==> e == NcError::CellEncodingError,
    {
        let mut cell: NcCell = NcCell::new();
        match Self::load(plane, &mut cell, string) {
            Ok(_) => Ok(cell),
            Err(e) => Err(e),
        }
    }

    /// The empty cell.
    pub fn new() -> (c: NcCell)
        ensures
            c == empty_cell(),
    {
        NcCell { gcluster: 0, gcluster_backstop: 0, width: 0, stylemask: 0, channels: 0 }
    }

    /// Loads the first cluster of a text into a cell, and says how many
    /// scalars and how many bytes of the text that cluster takes.
    ///
    /// The cluster that the cell held is released first. Styles and
    /// channels stay as they are. When the load fails, the cell is left
    /// empty.
    pub fn load_counted(plane: &mut NcPlane, cell: &mut NcCell, egc: &str) -> (r: NcResult<
        (usize, u32),
    >)
        requires
            old(plane).wf(),
        ensures
            final(plane).wf(),
            final(plane)@ == (NcPlaneView {
                pool: load_pool(old(plane)@.pool, *old(cell), egc@),
                ..old(plane)@
            }),
            *final(cell) == load_cell(old(plane)@.pool, *old(cell), egc@),
            r is Ok <==> load_ok(old(plane)@.pool, *old(cell), egc@),
            r matches Ok(n) ==> n.0 == first_cluster_len(egc@) && n.1 == utf8_len(
                first_cluster(egc@),
            ) && cell_egc(final(plane)@.pool, *final(cell)) == first_cluster(egc@),
            r matches Err(e) ==> e == NcError::CellEncodingError,
    {
        proof {
            lemma_first_cluster_len(egc@);
            lemma_utf8_len_bound(first_cluster(egc@));
            old(plane).lemma_wf_view();
            if load_ok(old(plane)@.pool, *old(cell), egc@) {
                lemma_load_shows_cluster(old(plane)@.pool, *old(cell), egc@);
            }
        }
        cell.release(plane);
        let scalars: usize = match measure_first_cluster(egc) {
            Ok(n) => n,
            Err(e) => {
                return Err(e);
            },
        };
        if scalars == 0 {
            return Ok((0, 0));
        }
        let first: char = egc.get_char(0);
        let bytes: usize = utf8_bytes(egc, scalars);
        if scalars == 1 {
            cell.gcluster = first as u32;
            cell.width = scalar_width(first);
            return Ok((scalars, bytes as u32));
        }
        let cluster: &str = egc.substring_char(0, scalars);
        proof {
            assert(cluster@ =~= first_cluster(egc@));
        }
        match plane.pool_stash(cluster) {
            Some(slot) => {
                cell.gcluster = NCCELL_POOL_FLAG + slot as u32;
                cell.width = scalar_width(first);
                Ok((scalars, bytes as u32))
            },
            None => Err(NcError::CellEncodingError),
        }
    }

    /// Loads the first cluster of a text into a cell, and gives the number
    /// of bytes of the text that the cluster takes.
    ///
    /// The cluster that the cell held is released first. Styles and
    /// channels stay as they are. Fails with `CellEncodingError` when the
    /// cluster is malformed or too long, or when it has to go to the pool
    /// and the pool is full; the cell is then left empty.
    pub fn load(plane: &mut NcPlane, cell: &mut NcCell, egc: &str) -> (r: NcResult<u32>)
        requires
            old(plane).wf(),
        ensures
            final(plane).wf(),
            final(plane)@ == (NcPlaneView {
                pool: load_pool(old(plane)@.pool, *old(cell), egc@),
                ..old(plane)@
            }),
            *final(cell) == load_cell(old(plane)@.pool, *old(cell), egc@),
            r is Ok <==> load_ok(old(plane)@.pool, *old(cell), egc@),
            r matches Ok(n) ==> n == utf8_len(first_cluster(egc@)) && cell_egc(
                final(plane)@.pool,
                *final(cell),
            ) == first_cluster(egc@),
            r matches Err(e) ==> e == NcError::CellEncodingError,
    {
        match Self::load_counted(plane, cell, egc) {
            Ok(n) => Ok(n.1),
            Err(e) => Err(e),
        }
    }

    /// Gives a cell the styles and channels passed, and then loads the
    /// first cluster of a text into it, as `load` does.
    pub fn prime(
        plane: &mut NcPlane,
        cell: &mut NcCell,
        gcluster: &str,
        style: u16,
        channels: u64,
    ) -> (r: NcResult<u32>)
        requires
            old(plane).wf(),
        ensures
            final(plane).wf(),
            final(plane)@ == (NcPlaneView {
                pool: load_pool(
                    old(plane)@.pool,
                    NcCell { stylemask: style, channels, ..*old(cell) },
                    gcluster@,
                ),
                ..old(plane)@
            }),
            *final(cell) == load_cell(
                old(plane)@.pool,
                NcCell { stylemask: style, channels, ..*old(cell) },
                gcluster@,
            ),
            r is Ok <==> load_ok(old(plane)@.pool, *old(cell), gcluster@),
            r matches Ok(n) ==> n == utf8_len(first_cluster(gcluster@)) && cell_egc(
                final(plane)@.pool,
                *final(cell),
            ) == first_cluster(gcluster@),
            r matches Err(e) ==> e == NcError::CellEncodingError,
    {
        cell.stylemask = style;
        cell.channels = channels;
        Self::load(plane, cell, gcluster)
    }

    /// A second cell that shows what this one shows, with the same styles
    /// and channels. Where the cluster is in the pool, the second cell gets
    /// a slot of its own. Fails with `CellEncodingError` when the pool is
    /// full.
    pub fn duplicate(&self, common_plane: &mut NcPlane) -> (r: NcResult<NcCell>)
        requires
            old(common_plane).wf(),
        ensures
            final(common_plane).wf(),
            Self::duplicate_needs_slot(old(common_plane)@.pool, *self) ==> {
                &&& r is Ok <==> crate::plane::first_free(old(common_plane)@.pool)
                    < NCPLANE_POOL_SLOTS
                &&& r matches Ok(c) ==> c == (NcCell {
                    gcluster: (NCCELL_POOL_FLAG + crate::plane::first_free(
                        old(common_plane)@.pool,
                    )) as u32,
                    ..*self
                }) && final(common_plane)@ == (NcPlaneView {
                    pool: crate::plane::pool_with(
                        old(common_plane)@.pool,
                        crate::plane::first_free(old(common_plane)@.pool),
                        cell_egc(old(common_plane)@.pool, *self),
                    ),
                    ..old(common_plane)@
                })
                &&& r is Err ==> final(common_plane)@ == old(common_plane)@
            },
            !Self::duplicate_needs_slot(old(common_plane)@.pool, *self) ==> {
                &&& final(common_plane)@ == old(common_plane)@
                &&& r == Ok::<NcCell, NcError>(
                    if crate::cell::cell_extended(*self) {
                        cell_cleared(*self)
                    } else {
                        *self
                    },
                )
            },
            r matches Ok(c) ==> cell_egc(final(common_plane)@.pool, c) == cell_egc(
                old(common_plane)@.pool,
                *self,
            ),
            r matches Err(e) ==> e == NcError::CellEncodingError,
    {
        if !(self.gcluster >= NCCELL_POOL_FLAG && self.gcluster < 2 * NCCELL_POOL_FLAG) {
            return Ok(*self);
        }
        let cluster: String = common_plane.pool_cluster((self.gcluster - NCCELL_POOL_FLAG) as usize);
        if cluster.as_str().is_empty() {
            return Ok(NcCell { gcluster: 0, width: 0, ..*self });
        }
        proof {
            old(common_plane).lemma_wf_view();
            lemma_first_free(old(common_plane)@.pool, 0);
        }
        match common_plane.pool_stash(cluster.as_str()) {
            Some(slot) => Ok(NcCell { gcluster: NCCELL_POOL_FLAG + slot as u32, ..*self }),
            None => Err(NcError::CellEncodingError),
        }
    }

    /// Whether a copy of `cell` needs a pool slot of its own: the cell's
    /// cluster is in the pool.
    pub open spec fn duplicate_needs_slot(pool: Seq<Seq<char>>, cell: NcCell) -> bool {
        crate::cell::cell_extended(cell) && cell_egc(pool, cell).len() > 0
    }

    /// Makes the cell the empty cell. Its cluster is not released: call
    /// `release` first where the cluster is in a pool.
    pub fn init(&mut self)
        ensures
            *final(self) == empty_cell(),
    {
        self.gcluster = 0;
        self.gcluster_backstop = 0;
        self.width = 0;
        self.stylemask = 0;
        self.channels = 0;
    }

    /// Releases the cluster of the cell: the cell shows nothing
    /// afterwards, and the pool slot that it named is free.
    pub fn release(&mut self, plane: &mut NcPlane)
        requires
            old(plane).wf(),
        ensures
            final(plane).wf(),
            *final(self) == cell_cleared(*old(self)),
            final(plane)@ == (NcPlaneView {
                pool: pool_released(old(plane)@.pool, *old(self)),
                ..old(plane)@
            }),
    {
        if self.gcluster >= NCCELL_POOL_FLAG && self.gcluster < 2 * NCCELL_POOL_FLAG {
            plane.pool_release((self.gcluster - NCCELL_POOL_FLAG) as usize);
        }
        self.gcluster = 0;
        self.width = 0;
    }

    /// The channels of the cell.
    pub fn channels(&mut self, plane: &mut NcPlane) -> (ch: u64)
        ensures
            ch == old(self).channels,
            *final(self) == *old(self),
            *final(plane) == *old(plane),
    {
        self.channels
    }

    /// The alpha bits of the background.
    pub fn bg_alpha(&self) -> (a: u32)
        ensures
            a == channel_alpha(channels_bchannel(self.channels)),
    {
        ncchannel_alpha(ncchannels_bchannel(self.channels))
    }

    /// Whether the background is the default colour.
    pub fn bg_default_p(&self) -> (d: bool)
        ensures
            d == channel_default_p(channels_bchannel(self.channels)),
    {
        ncchannel_default_p(ncchannels_bchannel(self.channels))
    }

    /// The palette index of the background.
    pub fn bg_palindex(&self) -> (i: u8)
        ensures
            i == channel_palindex(channels_bchannel(self.channels)),
    {
        ncchannel_palindex(ncchannels_bchannel(self.channels))
    }

    /// Whether the background is a palette colour.
    pub fn bg_palindex_p(&self) -> (p: bool)
        ensures
            p == channel_palindex_p(channels_bchannel(self.channels)),
    {
        ncchannel_palindex_p(ncchannels_bchannel(self.channels))
    }

    /// The RGB bits of the background.
    pub fn bg_rgb(&self) -> (rgb: u32)
        ensures
            rgb == channel_rgb(channels_bchannel(self.channels)),
    {
        ncchannel_rgb(ncchannels_bchannel(self.channels))
    }

    /// The three components of the background.
    pub fn bg_rgb8(&self) -> (rgb: (u8, u8, u8))
        ensures
            rgb == (
                channel_r(channels_bchannel(self.channels)),
                channel_g(channels_bchannel(self.channels)),
                channel_b(channels_bchannel(self.channels)),
            ),
    {
        ncchannel_rgb8(ncchannels_bchannel(self.channels))
    }

    /// The alpha bits of the foreground.
    pub fn fg_alpha(&self) -> (a: u32)
        ensures
            a == channel_alpha(channels_fchannel(self.channels)),
    {
        ncchannel_alpha(ncchannels_fchannel(self.channels))
    }

    /// Whether the foreground is the default colour.
    pub fn fg_default_p(&self) -> (d: bool)
        ensures
            d == channel_default_p(channels_fchannel(self.channels)),
    {
        ncchannel_default_p(ncchannels_fchannel(self.channels))
    }

    /// The palette index of the foreground.
    pub fn fg_palindex(&self) -> (i: u8)
        ensures
            i == channel_palindex(channels_fchannel(self.channels)),
    {
        ncchannel_palindex(ncchannels_fchannel(self.channels))
    }

    /// Whether the foreground is a palette colour.
    pub fn fg_palindex_p(&self) -> (p: bool)
        ensures
            p == channel_palindex_p(channels_fchannel(self.channels)),
    {
        ncchannel_palindex_p(ncchannels_fchannel(self.channels))
    }

    /// The RGB bits of the foreground.
    pub fn fg_rgb(&self) -> (rgb: u32)
        ensures
            rgb == channel_rgb(channels_fchannel(self.channels)),
    {
        ncchannel_rgb(ncchannels_fchannel(self.channels))
    }

    /// The three components of the foreground.
    pub fn fg_rgb8(&self) -> (rgb: (u8, u8, u8))
        ensures
            rgb == (
                channel_r(channels_fchannel(self.channels)),
                channel_g(channels_fchannel(self.channels)),
                channel_b(channels_fchannel(self.channels)),
            ),
    {
        ncchannel_rgb8(ncchannels_fchannel(self.channels))
    }

    /// Sets the alpha of the background. A background cannot be
    /// high-contrast: that request makes it opaque.
    pub fn set_bg_alpha(&mut self, alpha: u32)
        ensures
            *final(self) == (NcCell {
                channels: channels_with_bchannel(
                    old(self).channels,
                    channel_with_alpha(channels_bchannel(old(self).channels), bg_alpha_of(alpha)),
                ),
                ..*old(self)
            }),
            channels_fchannel(final(self).channels) == channels_fchannel(old(self).channels),
            channel_alpha(channels_bchannel(final(self).channels)) == bg_alpha_of(alpha) & NCALPHA_BG_ALPHA_MASK,
            channel_rgb(channels_bchannel(final(self).channels)) == channel_rgb(channels_bchannel(old(self).channels)),
    {
        proof {
            let was: u32 = channels_bchannel(self.channels);
            lemma_channels_halves(self.channels, channel_with_alpha(was, bg_alpha_of(alpha)));
            lemma_channel_alpha(was, bg_alpha_of(alpha));
        }
        let wanted: u32 = if alpha == NCALPHA_HIGHCONTRAST {
            NCALPHA_OPAQUE
        } else {
            alpha
        };
        let b: u32 = ncchannel_set_alpha(ncchannels_bchannel(self.channels), wanted);
        self.channels = ncchannels_set_bchannel(self.channels, b);
    }

    /// Makes the background the default colour.
    pub fn set_bg_default(&mut self)
        ensures
            *final(self) == (NcCell {
                channels: channels_with_bchannel(
                    old(self).channels,
                    channel_with_default(channels_bchannel(old(self).channels)),
                ),
                ..*old(self)
            }),
            channels_fchannel(final(self).channels) == channels_fchannel(old(self).channels),
            channel_default_p(channels_bchannel(final(self).channels)),
            channel_alpha(channels_bchannel(final(self).channels)) == NCALPHA_OPAQUE,
            channel_rgb(channels_bchannel(final(self).channels)) == channel_rgb(channels_bchannel(old(self).channels)),
    {
        proof {
            let was: u32 = channels_bchannel(self.channels);
            lemma_channels_halves(self.channels, channel_with_default(was));
            lemma_channel_default(was);
        }
        let b: u32 = ncchannel_set_default(ncchannels_bchannel(self.channels));
        self.channels = ncchannels_set_bchannel(self.channels, b);
    }

    /// Makes the background a palette colour: indexed, opaque, not
    /// default.
    pub fn set_bg_palindex(&mut self, index: u8)
        ensures
            *final(self) == (NcCell {
                channels: channels_with_bchannel(
                    old(self).channels,
                    channel_with_palindex(channels_bchannel(old(self).channels), index),
                ),
                ..*old(self)
            }),
            channels_fchannel(final(self).channels) == channels_fchannel(old(self).channels),
            channel_palindex_p(channels_bchannel(final(self).channels)),
            channel_palindex(channels_bchannel(final(self).channels)) == index,
            channel_alpha(channels_bchannel(final(self).channels)) == NCALPHA_OPAQUE,
    {
        proof {
            let was: u32 = channels_bchannel(self.channels);
            lemma_channels_halves(self.channels, channel_with_palindex(was, index));
            lemma_channel_palindex(was, index);
        }
        let b: u32 = ncchannel_set_palindex(ncchannels_bchannel(self.channels), index);
        self.channels = ncchannels_set_bchannel(self.channels, b);
    }

    /// Sets the RGB bits of the background, and marks it as not default.
    pub fn set_bg_rgb(&mut self, rgb: u32)
        ensures
            *final(self) == (NcCell {
                channels: channels_with_bchannel(
                    old(self).channels,
                    channel_with_rgb(channels_bchannel(old(self).channels), rgb),
                ),
                ..*old(self)
            }),
            channels_fchannel(final(self).channels) == channels_fchannel(old(self).channels),
            channel_rgb(channels_bchannel(final(self).channels)) == rgb & NCALPHA_BG_RGB_MASK,
            !channel_default_p(channels_bchannel(final(self).channels)),
            !channel_palindex_p(channels_bchannel(final(self).channels)),
            channel_alpha(channels_bchannel(final(self).channels)) == channel_alpha(channels_bchannel(old(self).channels)),
    {
        proof {
            let was: u32 = channels_bchannel(self.channels);
            lemma_channels_halves(self.channels, channel_with_rgb(was, rgb));
            lemma_channel_rgb(was, rgb);
        }
        let b: u32 = ncchannel_set_rgb(ncchannels_bchannel(self.channels), rgb);
        self.channels = ncchannels_set_bchannel(self.channels, b);
    }

    /// Sets the three components of the background, and marks it as not
    /// default.
    pub fn set_bg_rgb8(&mut self, red: u8, green: u8, blue: u8)
        ensures
            *final(self) == (NcCell {
                channels: channels_with_bchannel(
                    old(self).channels,
                    channel_with_rgb(
                        channels_bchannel(old(self).channels),
                        rgb_of(red, green, blue),
                    ),
                ),
                ..*old(self)
            }),
            channels_fchannel(final(self).channels) == channels_fchannel(old(self).channels),
            channel_r(channels_bchannel(final(self).channels)) == red,
            channel_g(channels_bchannel(final(self).channels)) == green,
            channel_b(channels_bchannel(final(self).channels)) == blue,
            !channel_default_p(channels_bchannel(final(self).channels)),
            !channel_palindex_p(channels_bchannel(final(self).channels)),
            channel_alpha(channels_bchannel(final(self).channels)) == channel_alpha(channels_bchannel(old(self).channels)),
    {
        proof {
            let was: u32 = channels_bchannel(self.channels);
            lemma_channels_halves(self.channels, channel_with_rgb(was, rgb_of(red, green, blue)));
            lemma_channel_rgb8(was, red, green, blue);
            lemma_channel_rgb(was, rgb_of(red, green, blue));
        }
        let b: u32 = ncchannel_set_rgb8(ncchannels_bchannel(self.channels), red, green, blue);
        self.channels = ncchannels_set_bchannel(self.channels, b);
    }

    /// Sets the alpha of the foreground.
    pub fn set_fg_alpha(&mut self, alpha: u32)
        ensures
            *final(self) == (NcCell {
                channels: channels_with_fchannel(
                    old(self).channels,
                    channel_with_alpha(channels_fchannel(old(self).channels), alpha),
                ),
                ..*old(self)
            }),
            channels_bchannel(final(self).channels) == channels_bchannel(old(self).channels),
            channel_alpha(channels_fchannel(final(self).channels)) == alpha & NCALPHA_BG_ALPHA_MASK,
            channel_rgb(channels_fchannel(final(self).channels)) == channel_rgb(channels_fchannel(old(self).channels)),
    {
        proof {
            let was: u32 = channels_fchannel(self.channels);
            lemma_channels_halves(self.channels, channel_with_alpha(was, alpha));
            lemma_channel_alpha(was, alpha);
        }
        let f: u32 = ncchannel_set_alpha(ncchannels_fchannel(self.channels), alpha);
        self.channels = ncchannels_set_fchannel(self.channels, f);
    }

    /// Makes the foreground the default colour.
    pub fn set_fg_default(&mut self)
        ensures
            *final(self) == (NcCell {
                channels: channels_with_fchannel(
                    old(self).channels,
                    channel_with_default(channels_fchannel(old(self).channels)),
                ),
                ..*old(self)
            }),
            channels_bchannel(final(self).channels) == channels_bchannel(old(self).channels),
            channel_default_p(channels_fchannel(final(self).channels)),
            channel_alpha(channels_fchannel(final(self).channels)) == NCALPHA_OPAQUE,
            channel_rgb(channels_fchannel(final(self).channels)) == channel_rgb(channels_fchannel(old(self).channels)),
    {
        proof {
            let was: u32 = channels_fchannel(self.channels);
            lemma_channels_halves(self.channels, channel_with_default(was));
            lemma_channel_default(was);
        }
        let f: u32 = ncchannel_set_default(ncchannels_fchannel(self.channels));
        self.channels = ncchannels_set_fchannel(self.channels, f);
    }

    /// Makes the foreground a palette colour: indexed, opaque, not
    /// default.
    pub fn set_fg_palindex(&mut self, index: u8)
        ensures
            *final(self) == (NcCell {
                channels: channels_with_fchannel(
                    old(self).channels,
                    channel_with_palindex(channels_fchannel(old(self).channels), index),
                ),
                ..*old(self)
            }),
            channels_bchannel(final(self).channels) == channels_bchannel(old(self).channels),
            channel_palindex_p(channels_fchannel(final(self).channels)),
            channel_palindex(channels_fchannel(final(self).channels)) == index,
            channel_alpha(channels_fchannel(final(self).channels)) == NCALPHA_OPAQUE,
    {
        proof {
            let was: u32 = channels_fchannel(self.channels);
            lemma_channels_halves(self.channels, channel_with_palindex(was, index));
            lemma_channel_palindex(was, index);
        }
        let f: u32 = ncchannel_set_palindex(ncchannels_fchannel(self.channels), index);
        self.channels = ncchannels_set_fchannel(self.channels, f);
    }

    /// Sets the RGB bits of the foreground, and marks it as not default.
    pub fn set_fg_rgb(&mut self, rgb: u32)
        ensures
            *final(self) == (NcCell {
                channels: channels_with_fchannel(
                    old(self).channels,
                    channel_with_rgb(channels_fchannel(old(self).channels), rgb),
                ),
                ..*old(self)
            }),
            channels_bchannel(final(self).channels) == channels_bchannel(old(self).channels),
            channel_rgb(channels_fchannel(final(self).channels)) == rgb & NCALPHA_BG_RGB_MASK,
            !channel_default_p(channels_fchannel(final(self).channels)),
            !channel_palindex_p(channels_fchannel(final(self).channels)),
            channel_alpha(channels_fchannel(final(self).channels)) == channel_alpha(channels_fchannel(old(self).channels)),
    {
        proof {
            let was: u32 = channels_fchannel(self.channels);
            lemma_channels_halves(self.channels, channel_with_rgb(was, rgb));
            lemma_channel_rgb(was, rgb);
        }
        let f: u32 = ncchannel_set_rgb(ncchannels_fchannel(self.channels), rgb);
        self.channels = ncchannels_set_fchannel(self.channels, f);
    }

    /// Sets the three components of the foreground, and marks it as not
    /// default.
    pub fn set_fg_rgb8(&mut self, red: u8, green: u8, blue: u8)
        ensures
            *final(self) == (NcCell {
                channels: channels_with_fchannel(
                    old(self).channels,
                    channel_with_rgb(
                        channels_fchannel(old(self).channels),
                        rgb_of(red, green, blue),
                    ),
                ),
                ..*old(self)
            }),
            channels_bchannel(final(self).channels) == channels_bchannel(old(self).channels),
            channel_r(channels_fchannel(final(self).channels)) == red,
            channel_g(channels_fchannel(final(self).channels)) == green,
            channel_b(channels_fchannel(final(self).channels)) == blue,
            !channel_default_p(channels_fchannel(final(self).channels)),
            !channel_palindex_p(channels_fchannel(final(self).channels)),
            channel_alpha(channels_fchannel(final(self).channels)) == channel_alpha(channels_fchannel(old(self).channels)),
    {
        proof {
            let was: u32 = channels_fchannel(self.channels);
            lemma_channels_halves(self.channels, channel_with_rgb(was, rgb_of(red, green, blue)));
            lemma_channel_rgb8(was, red, green, blue);
            lemma_channel_rgb(was, rgb_of(red, green, blue));
        }
        let f: u32 = ncchannel_set_rgb8(ncchannels_fchannel(self.channels), red, green, blue);
        self.channels = ncchannels_set_fchannel(self.channels, f);
    }

    /// Whether two cells differ in what they show: in cluster, styles or
    /// channels. The cells may live in different planes; it is the
    /// clusters that are held against each other, not where they are kept.
    pub fn compare(plane1: &NcPlane, cell1: &NcCell, plane2: &NcPlane, cell2: &NcCell) -> (differ:
        bool)
        ensures
            differ == (cell1.stylemask != cell2.stylemask || cell1.channels != cell2.channels
                || cell_egc(plane1@.pool, *cell1) != cell_egc(plane2@.pool, *cell2)),
    {
        if cell1.stylemask != cell2.stylemask || cell1.channels != cell2.channels {
            return true;
        }
        let first: String = cell1.strdup(plane1);
        let second: String = cell2.strdup(plane2);
        !(first == second)
    }

    /// Hands out the three parts of a cell: styles and channels through
    /// the references, the cluster as the result.
    pub fn extract(
        &mut self,
        plane: &mut NcPlane,
        styles: &mut u16,
        channels: &mut u64,
    ) -> (egc: String)
        ensures
            egc@ == cell_egc(old(plane)@.pool, *old(self)),
            *final(styles) == old(self).stylemask,
            *final(channels) == old(self).channels,
            *final(self) == *old(self),
            *final(plane) == *old(plane),
    {
        *styles = self.stylemask;
        *channels = self.channels;
        self.strdup(plane)
    }

    /// The cluster that the cell shows.
    pub fn egc(&mut self, plane: &mut NcPlane) -> (egc: String)
        ensures
            egc@ == cell_egc(old(plane)@.pool, *old(self)),
            *final(self) == *old(self),
            *final(plane) == *old(plane),
    {
        self.strdup(plane)
    }

    /// The styles of the cell.
    pub fn styles(&mut self) -> (s: u16)
        ensures
            s == old(self).stylemask,
            *final(self) == *old(self),
    {
        self.stylemask
    }

    /// Takes styles away from the cell.
    pub fn styles_off(&mut self, stylebits: u16)
        ensures
            *final(self) == (NcCell {
                stylemask: old(self).stylemask & !stylebits,
                ..*old(self)
            }),
    {
        self.stylemask = self.stylemask & !stylebits;
    }

    /// Adds styles to the cell.
    pub fn styles_on(&mut self, stylebits: u16)
        ensures
            *final(self) == (NcCell {
                stylemask: old(self).stylemask | stylebits,
                ..*old(self)
            }),
    {
        self.stylemask = self.stylemask | stylebits;
    }

    /// Gives the cell exactly these styles.
    pub fn styles_set(&mut self, stylebits: u16)
        ensures
            *final(self) == (NcCell { stylemask: stylebits, ..*old(self) }),
    {
        self.stylemask = stylebits;
    }

    /// The number of columns that the cell takes.
    pub fn cols(&self) -> (n: u8)
        ensures
            n == cell_cols(*self),
            n >= 1,
    {
        if self.width != 0 {
            self.width
        } else {
            1
        }
    }

    /// The cluster that the cell shows, read where it is kept: in the cell
    /// or in the pool of the plane.
    pub fn extended_gcluster(&self, plane: &NcPlane) -> (egc: String)
        ensures
            egc@ == cell_egc(plane@.pool, *self),
    {
        self.strdup(plane)
    }

    /// A copy of the cluster that the cell shows. The copy stays good when
    /// the plane is changed or dropped.
    pub fn strdup(&self, plane: &NcPlane) -> (egc: String)
        ensures
            egc@ == cell_egc(plane@.pool, *self),
    {
        if self.gcluster == 0 {
            String::new()
        } else if self.gcluster < NCCELL_POOL_FLAG {
            match scalar_from_u32(self.gcluster) {
                Some(c) => {
                    let mut s: String = String::new();
                    string_push(&mut s, c);
                    proof {
                        assert(s@ =~= seq![c]);
                    }
                    s
                },
                None => String::new(),
            }
        } else if self.gcluster < 2 * NCCELL_POOL_FLAG {
            plane.pool_cluster((self.gcluster - NCCELL_POOL_FLAG) as usize)
        } else {
            String::new()
        }
    }

    /// Whether the cell belongs to a glyph that is two columns wide.
    pub fn double_wide_p(&self) -> (wide: bool)
        ensures
            wide == (self.width >= 2),
    {
        self.width >= 2
    }

    /// Whether the cell is the second cell of a wide glyph: it is wide and
    /// holds no cluster of its own. Asks the same as `wide_right_p`.
    pub fn wide_left_p(&self) -> (second: bool)
        ensures
            second == (self.width >= 2 && self.gcluster == 0),
    {
        self.wide_right_p()
    }

    /// Whether the cell is the second cell of a wide glyph: it is wide and
    /// holds no cluster of its own.
    pub fn wide_right_p(&self) -> (second: bool)
        ensures
            second == (self.width >= 2 && self.gcluster == 0),
    {
        self.width >= 2 && self.gcluster == 0
    }
}

} // verus!
