//! A compositing model for character-cell terminals.
//!
//! Drawing happens on planes: rectangular grids of cells, each plane with its
//! own pool of extended grapheme clusters. Planes are grouped into piles. A
//! pile is totally ordered along a z-axis and holds a forest of bindings: each
//! plane is bound to a parent plane of the same pile, or to itself when it is
//! a root. Rendering flattens one pile into a matrix of cells; rasterizing
//! turns that matrix into the bytes that bring a terminal up to date.
//!
//! Every function carries a contract, and the contracts are proved. Two
//! small functions in `egc` are the exception: they hand a call on to the
//! standard library, and their contracts say what its documentation says.

pub mod align;
pub mod blitter;
pub mod cell;
pub mod channel;
pub mod egc;
pub mod error;
pub mod pile;
pub mod plane;
pub mod raster;
pub mod render;
pub mod resizecb;
pub mod style;

pub use align::NcAlign;
pub use cell::NcCell;
pub use channel::{NcAlphaBits, NcChannel, NcChannels, NcComponent, NcPaletteIndex, NcRgb};
pub use error::{NcError, NcResult};
pub use pile::{NcPiles, NcPilesView, NcPlaneId};
pub use plane::{NcPlane, NcPlaneFlags, NcPlaneOptions, NcPlaneOptionsBuilder};
pub use raster::NcTerminal;
pub use render::{NcRendered, NcRenderedCell};
pub use resizecb::NcResizeCb;
pub use style::NcStyle;
