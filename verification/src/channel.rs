//! Colour channels.
//!
//! A channel is 32 bits: 24 bits of RGB (or a palette index in the low
//! byte), a flag that says the colour is indexed, two bits of alpha, and a
//! flag that says the channel is not the terminal's default colour. A cell
//! holds two of them in 64 bits, the foreground in the high half and the
//! background in the low half.

use vstd::prelude::*;

verus! {

/// One 32-bit colour channel.
pub type NcChannel = u32;

/// A foreground and a background channel, packed into 64 bits.
pub type NcChannels = u64;

/// Two bits of alpha, in the position they have inside a channel.
pub type NcAlphaBits = u32;

/// An index into a palette of 256 colours.
pub type NcPaletteIndex = u8;

/// 24 bits of RGB.
pub type NcRgb = u32;

/// One 8-bit colour component.
pub type NcComponent = u8;

/// The cell's colour is drawn as it is; nothing below shows through.
pub const NCALPHA_OPAQUE: u32 = 0x0000_0000;

/// The cell's colour is averaged with the colours below it.
pub const NCALPHA_BLEND: u32 = 0x1000_0000;

/// The cell's colour is not drawn at all.
pub const NCALPHA_TRANSPARENT: u32 = 0x2000_0000;

/// Foreground only: asks for a colour that stands out against the
/// background. Rendering takes it as opaque.
pub const NCALPHA_HIGHCONTRAST: u32 = 0x3000_0000;

/// Set when the channel is not the default colour.
pub const NCALPHA_BGDEFAULT_MASK: u32 = 0x4000_0000;

/// The two alpha bits of a channel.
pub const NCALPHA_BG_ALPHA_MASK: u32 = 0x3000_0000;

/// Set when the channel holds a palette index.
pub const NCALPHA_BG_PALETTE: u32 = 0x0800_0000;

/// The RGB bits of a channel.
pub const NCALPHA_BG_RGB_MASK: u32 = 0x00ff_ffff;

/// The alpha bits of a channel.
pub open spec fn channel_alpha(c: u32) -> u32 {
    c & NCALPHA_BG_ALPHA_MASK
}

/// Whether a channel is the default colour.
pub open spec fn channel_default_p(c: u32) -> bool {
    c & NCALPHA_BGDEFAULT_MASK == 0
}

/// Whether a channel holds a palette index.
pub open spec fn channel_palindex_p(c: u32) -> bool {
    !channel_default_p(c) && c & NCALPHA_BG_PALETTE != 0
}

/// The palette index of a channel: its low byte.
pub open spec fn channel_palindex(c: u32) -> u8 {
    (c & 0xff) as u8
}

/// The RGB bits of a channel.
pub open spec fn channel_rgb(c: u32) -> u32 {
    c & NCALPHA_BG_RGB_MASK
}

/// The red component of a channel.
pub open spec fn channel_r(c: u32) -> u8 {
    ((c & 0xff_0000) >> 16) as u8
}

/// The green component of a channel.
pub open spec fn channel_g(c: u32) -> u8 {
    ((c & 0x00_ff00) >> 8) as u8
}

/// The blue component of a channel.
pub open spec fn channel_b(c: u32) -> u8 {
    (c & 0x00_00ff) as u8
}

/// A channel with its alpha bits replaced. Any alpha but opaque also marks
/// the channel as not default.
pub open spec fn channel_with_alpha(c: u32, alpha: u32) -> u32 {
    let replaced = (alpha & NCALPHA_BG_ALPHA_MASK) | (c & !NCALPHA_BG_ALPHA_MASK);
    if alpha != NCALPHA_OPAQUE {
        replaced | NCALPHA_BGDEFAULT_MASK
    } else {
        replaced
    }
}

/// A channel marked as the default colour, and opaque.
pub open spec fn channel_with_default(c: u32) -> u32 {
    c & !(NCALPHA_BGDEFAULT_MASK | NCALPHA_BG_ALPHA_MASK)
}

/// A channel that holds a palette index: opaque, not default, indexed.
pub open spec fn channel_with_palindex(c: u32, index: u8) -> u32 {
    (c & 0xcf00_0000) | NCALPHA_BGDEFAULT_MASK | NCALPHA_BG_PALETTE | (index as u32)
}

/// A channel with its RGB bits replaced by the low 24 bits of `rgb`, and
/// marked as not default and not indexed.
pub open spec fn channel_with_rgb(c: u32, rgb: u32) -> u32 {
    (c & !(NCALPHA_BG_RGB_MASK | NCALPHA_BG_PALETTE)) | NCALPHA_BGDEFAULT_MASK | (rgb
        & NCALPHA_BG_RGB_MASK)
}

/// 24 bits of RGB from three components.
pub open spec fn rgb_of(r: u8, g: u8, b: u8) -> u32 {
    ((r as u32) << 16) | ((g as u32) << 8) | (b as u32)
}

/// The foreground channel: the high half.
pub open spec fn channels_fchannel(ch: u64) -> u32 {
    (ch >> 32) as u32
}

/// The background channel: the low half.
pub open spec fn channels_bchannel(ch: u64) -> u32 {
    (ch & 0xffff_ffff) as u32
}

/// A pair of channels with the foreground replaced.
pub open spec fn channels_with_fchannel(ch: u64, c: u32) -> u64 {
    (ch & 0xffff_ffff) | ((c as u64) << 32)
}

/// A pair of channels with the background replaced.
pub open spec fn channels_with_bchannel(ch: u64, c: u32) -> u64 {
    (ch & 0xffff_ffff_0000_0000) | (c as u64)
}

/// The alpha that a background takes when `alpha` is asked for: a
/// background cannot be high-contrast, so that request makes it opaque.
pub open spec fn bg_alpha_of(alpha: u32) -> u32 {
    if alpha == NCALPHA_HIGHCONTRAST {
        NCALPHA_OPAQUE
    } else {
        alpha
    }
}

/// The alpha bits of a channel.
pub fn ncchannel_alpha(c: u32) -> (a: u32)
    ensures
        a == channel_alpha(c),
{
    c & NCALPHA_BG_ALPHA_MASK
}

/// Whether a channel is the default colour.
pub fn ncchannel_default_p(c: u32) -> (d: bool)
    ensures
        d == channel_default_p(c),
{
    c & NCALPHA_BGDEFAULT_MASK == 0
}

/// Whether a channel holds a palette index.
pub fn ncchannel_palindex_p(c: u32) -> (p: bool)
    ensures
        p == channel_palindex_p(c),
{
    !ncchannel_default_p(c) && c & NCALPHA_BG_PALETTE != 0
}

/// The palette index of a channel.
pub fn ncchannel_palindex(c: u32) -> (i: u8)
    ensures
        i == channel_palindex(c),
{
    #[verifier::truncate]
    ((c & 0xff) as u8)
}

/// The RGB bits of a channel.
pub fn ncchannel_rgb(c: u32) -> (rgb: u32)
    ensures
        rgb == channel_rgb(c),
{
    c & NCALPHA_BG_RGB_MASK
}

/// The three colour components of a channel.
pub fn ncchannel_rgb8(c: u32) -> (rgb: (u8, u8, u8))
    ensures
        rgb == (channel_r(c), channel_g(c), channel_b(c)),
{
    let r: u8 = #[verifier::truncate]
    (((c & 0xff_0000) >> 16) as u8);
    let g: u8 = #[verifier::truncate]
    (((c & 0x00_ff00) >> 8) as u8);
    let b: u8 = #[verifier::truncate]
    ((c & 0x00_00ff) as u8);
    (r, g, b)
}

/// Replaces the alpha bits of a channel.
pub fn ncchannel_set_alpha(c: u32, alpha: u32) -> (out: u32)
    ensures
        out == channel_with_alpha(c, alpha),
{
    let replaced: u32 = (alpha & NCALPHA_BG_ALPHA_MASK) | (c & !NCALPHA_BG_ALPHA_MASK);
    if alpha != NCALPHA_OPAQUE {
        replaced | NCALPHA_BGDEFAULT_MASK
    } else {
        replaced
    }
}

/// Marks a channel as the default colour.
pub fn ncchannel_set_default(c: u32) -> (out: u32)
    ensures
        out == channel_with_default(c),
{
    c & !(NCALPHA_BGDEFAULT_MASK | NCALPHA_BG_ALPHA_MASK)
}

/// Makes a channel hold a palette index.
pub fn ncchannel_set_palindex(c: u32, index: u8) -> (out: u32)
    ensures
        out == channel_with_palindex(c, index),
{
    (c & 0xcf00_0000) | NCALPHA_BGDEFAULT_MASK | NCALPHA_BG_PALETTE | (index as u32)
}

/// Replaces the RGB bits of a channel.
pub fn ncchannel_set_rgb(c: u32, rgb: u32) -> (out: u32)
    ensures
        out == channel_with_rgb(c, rgb),
{
    (c & !(NCALPHA_BG_RGB_MASK | NCALPHA_BG_PALETTE)) | NCALPHA_BGDEFAULT_MASK | (rgb
        & NCALPHA_BG_RGB_MASK)
}

/// Replaces the RGB bits of a channel by three components.
pub fn ncchannel_set_rgb8(c: u32, r: u8, g: u8, b: u8) -> (out: u32)
    ensures
        out == channel_with_rgb(c, rgb_of(r, g, b)),
{
    let rgb: u32 = ((r as u32) << 16) | ((g as u32) << 8) | (b as u32);
    ncchannel_set_rgb(c, rgb)
}

/// The foreground channel of a pair.
pub fn ncchannels_fchannel(ch: u64) -> (c: u32)
    ensures
        c == channels_fchannel(ch),
{
    #[verifier::truncate]
    ((ch >> 32) as u32)
}

/// The background channel of a pair.
pub fn ncchannels_bchannel(ch: u64) -> (c: u32)
    ensures
        c == channels_bchannel(ch),
{
    #[verifier::truncate]
    ((ch & 0xffff_ffff) as u32)
}

/// Replaces the foreground channel of a pair.
pub fn ncchannels_set_fchannel(ch: u64, c: u32) -> (out: u64)
    ensures
        out == channels_with_fchannel(ch, c),
{
    (ch & 0xffff_ffff) | ((c as u64) << 32)
}

/// Replaces the background channel of a pair.
pub fn ncchannels_set_bchannel(ch: u64, c: u32) -> (out: u64)
    ensures
        out == channels_with_bchannel(ch, c),
{
    (ch & 0xffff_ffff_0000_0000) | (c as u64)
}

/// Packs a foreground and a background channel.
pub fn ncchannels_combine(fchannel: u32, bchannel: u32) -> (out: u64)
    ensures
        out == channels_with_bchannel(channels_with_fchannel(0, fchannel), bchannel),
{
    ncchannels_set_bchannel(ncchannels_set_fchannel(0, fchannel), bchannel)
}

/// The two halves of a pair are independent: replacing one leaves the other,
/// and reads back what was written.
pub proof fn lemma_channels_halves(ch: u64, c: u32)
    by (bit_vector)
    ensures
        channels_fchannel(channels_with_fchannel(ch, c)) == c,
        channels_bchannel(channels_with_fchannel(ch, c)) == channels_bchannel(ch),
        channels_bchannel(channels_with_bchannel(ch, c)) == c,
        channels_fchannel(channels_with_bchannel(ch, c)) == channels_fchannel(ch),
        channels_with_bchannel(channels_with_fchannel(0, channels_fchannel(ch)), channels_bchannel(ch)) == ch,
{
}

/// Setting RGB reads back the low 24 bits that were written, marks the
/// channel as not default and not indexed, and keeps alpha.
pub proof fn lemma_channel_rgb(c: u32, rgb: u32)
    by (bit_vector)
    ensures
        channel_rgb(channel_with_rgb(c, rgb)) == rgb & NCALPHA_BG_RGB_MASK,
        !channel_default_p(channel_with_rgb(c, rgb)),
        channel_alpha(channel_with_rgb(c, rgb)) == channel_alpha(c),
        !channel_palindex_p(channel_with_rgb(c, rgb)),
{
}

/// Three components that were written are the three that are read.
pub proof fn lemma_channel_rgb8(c: u32, r: u8, g: u8, b: u8)
    by (bit_vector)
    ensures
        channel_r(channel_with_rgb(c, rgb_of(r, g, b))) == r,
        channel_g(channel_with_rgb(c, rgb_of(r, g, b))) == g,
        channel_b(channel_with_rgb(c, rgb_of(r, g, b))) == b,
        rgb_of(r, g, b) & NCALPHA_BG_RGB_MASK == rgb_of(r, g, b),
        rgb_of(channel_r(c), channel_g(c), channel_b(c)) == channel_rgb(c),
{
}

/// Setting alpha reads back the two alpha bits that were written and keeps
/// the colour. The channel stays default only if it was default and the
/// alpha is opaque.
pub proof fn lemma_channel_alpha(c: u32, alpha: u32)
    by (bit_vector)
    ensures
        channel_alpha(channel_with_alpha(c, alpha)) == alpha & NCALPHA_BG_ALPHA_MASK,
        channel_rgb(channel_with_alpha(c, alpha)) == channel_rgb(c),
        channel_default_p(channel_with_alpha(c, alpha)) == (channel_default_p(c) && alpha
            == NCALPHA_OPAQUE),
{
}

/// A channel set to default is default and opaque, and keeps its colour
/// bits.
pub proof fn lemma_channel_default(c: u32)
    by (bit_vector)
    ensures
        channel_default_p(channel_with_default(c)),
        !channel_palindex_p(channel_with_default(c)),
        channel_alpha(channel_with_default(c)) == NCALPHA_OPAQUE,
        channel_rgb(channel_with_default(c)) == channel_rgb(c),
{
}

/// A channel set to a palette index is indexed, opaque and not default, and
/// reads back the index.
pub proof fn lemma_channel_palindex(c: u32, index: u8)
    by (bit_vector)
    ensures
        channel_palindex_p(channel_with_palindex(c, index)),
        !channel_default_p(channel_with_palindex(c, index)),
        channel_palindex(channel_with_palindex(c, index)) == index,
        channel_alpha(channel_with_palindex(c, index)) == NCALPHA_OPAQUE,
{
}

} // verus!
