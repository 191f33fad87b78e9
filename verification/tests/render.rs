use ncpile::channel::{NCALPHA_BLEND, NCALPHA_TRANSPARENT};
use ncpile::pile::NcPiles;
use ncpile::raster::NcTerminal;
use ncpile::render::{average, blend, finish, Paint};
use ncpile::style::{NCSTYLE_BOLD, NCSTYLE_STRUCK, NCSTYLE_UNDERCURL};
use ncpile::{NcCell, NcError, NcPlaneOptions};

fn glyph(nc: &mut NcPiles, p: usize, text: &str, fg: (u8, u8, u8)) -> NcCell {
    let mut c = NcCell::from_str(nc.plane_mut(p).unwrap(), text).unwrap();
    c.set_fg_rgb8(fg.0, fg.1, fg.2);
    c
}

fn fill(nc: &mut NcPiles, p: usize, cell: &NcCell) {
    let plane = nc.plane_mut(p).unwrap();
    for y in 0..plane.rows() {
        for x in 0..plane.cols() {
            plane.put_cell(y, x, cell).unwrap();
        }
    }
}

#[test]
fn cells_are_written_and_read() {
    let mut nc = NcPiles::new(4, 4).unwrap();
    let p = nc.create_root(&NcPlaneOptions::new(0, 0, 2, 3)).unwrap();
    let wide = glyph(&mut nc, p, "e\u{301}", (1, 2, 3));
    let plane = nc.plane_mut(p).unwrap();
    assert!(plane.has_yx(1, 2));
    assert!(!plane.has_yx(2, 0));
    assert!(!plane.has_yx(0, 3));
    assert_eq!(plane.put_cell(1, 2, &wide), Ok(()));
    assert_eq!(plane.put_cell(0, 0, &NcCell::from_char7b('x').unwrap()), Ok(()));
    assert_eq!(plane.put_cell(2, 0, &wide), Err(NcError::InvalidOperation));
    assert_eq!(plane.egc_at(1, 2).unwrap(), "e\u{301}");
    assert_eq!(plane.egc_at(0, 0).unwrap(), "x");
    assert_eq!(plane.egc_at(0, 1).unwrap(), "");
    assert_eq!(plane.egc_at(0, 3), Err(NcError::InvalidOperation));
    let kept = plane.cell_at(1, 2).unwrap();
    assert_eq!(kept.channels, wide.channels);
    assert_ne!(kept.gcluster, wide.gcluster);
    assert_eq!(plane.cell_at(5, 5), Err(NcError::InvalidOperation));
    assert_eq!(plane.pool_used(), 2);
    // writing over a cell releases what it held
    plane.put_cell(1, 2, &NcCell::new()).unwrap();
    assert_eq!(plane.pool_used(), 1);
    assert_eq!(plane.egc_at(1, 2).unwrap(), "");
    // a cell can be written back from where it was read
    plane.put_cell(0, 1, &wide).unwrap();
    let read = plane.cell_at(0, 1).unwrap();
    plane.put_cell(0, 1, &read).unwrap();
    assert_eq!(plane.egc_at(0, 1).unwrap(), "e\u{301}");
    assert_eq!(plane.pool_used(), 2);
}

#[test]
fn the_base_cell_shows_where_a_cell_is_empty() {
    let mut nc = NcPiles::new(1, 2).unwrap();
    let p = nc.create_root(&NcPlaneOptions::new(0, 0, 1, 2)).unwrap();
    let dot = glyph(&mut nc, p, ".", (9, 9, 9));
    let x = glyph(&mut nc, p, "x", (0, 0, 0));
    let plane = nc.plane_mut(p).unwrap();
    plane.set_base(&dot).unwrap();
    assert_eq!(plane.base(), dot);
    let mut bare = x;
    bare.set_fg_default();
    plane.put_cell(0, 1, &bare).unwrap();
    let m = nc.compose(p).unwrap();
    assert_eq!(m.cell_at(0, 0).unwrap().egc, ".");
    assert_eq!(m.cell_at(0, 0).unwrap().channels, dot.channels);
    assert_eq!(m.cell_at(0, 1).unwrap().egc, "x");
    assert_eq!(m.cell_at(0, 1).unwrap().channels, dot.channels);
}

#[test]
fn the_top_plane_shows_where_it_has_content() {
    let mut nc = NcPiles::new(3, 3).unwrap();
    let a = nc.create_root(&NcPlaneOptions::new(0, 0, 3, 3)).unwrap();
    let b = nc.create_bound(a, &NcPlaneOptions::new(0, 0, 3, 3)).unwrap();
    let c = nc.create_bound(b, &NcPlaneOptions::new(1, 1, 1, 2)).unwrap();
    let of_a = glyph(&mut nc, a, "a", (10, 20, 30));
    let of_c = glyph(&mut nc, c, "c", (200, 100, 50));
    fill(&mut nc, a, &of_a);
    nc.plane_mut(c).unwrap().put_cell(0, 0, &of_c).unwrap();
    nc.move_top(c).unwrap();
    assert_eq!(nc.z_order(a), vec![c, b, a]);
    assert_eq!(nc.render(a), Ok(()));
    let m = nc.rendered(c).unwrap();
    assert_eq!((m.rows(), m.cols(), m.len()), (3, 3, 9));
    for y in 0..3 {
        for x in 0..3 {
            let cell = m.cell_at(y, x).unwrap();
            if (y, x) == (1, 1) {
                assert_eq!(cell.egc, "c");
                assert_eq!(cell.channels, of_c.channels);
            } else {
                assert_eq!(cell.egc, "a");
                assert_eq!(cell.channels, of_a.channels);
            }
        }
    }
    assert!(m.cell_at(3, 0).is_none());
    assert!(m.cell(9).is_none());
    assert_eq!(m.cell(4).unwrap().egc, "c");
}

#[test]
fn rendering_follows_the_z_order() {
    let mut nc = NcPiles::new(1, 1).unwrap();
    let a = nc.create_root(&NcPlaneOptions::new(0, 0, 1, 1)).unwrap();
    let b = nc.create_bound(a, &NcPlaneOptions::new(0, 0, 1, 1)).unwrap();
    let of_a = glyph(&mut nc, a, "a", (1, 1, 1));
    let of_b = glyph(&mut nc, b, "b", (2, 2, 2));
    fill(&mut nc, a, &of_a);
    fill(&mut nc, b, &of_b);
    assert_eq!(nc.compose(a).unwrap().cell(0).unwrap().egc, "b");
    nc.move_top(a).unwrap();
    assert_eq!(nc.compose(a).unwrap().cell(0).unwrap().egc, "a");
    // another pile is not drawn
    let other = nc.create_root(&NcPlaneOptions::new(0, 0, 1, 1)).unwrap();
    assert_eq!(nc.compose(other).unwrap().cell(0).unwrap().egc, "");
    assert!(matches!(nc.compose(99), Err(NcError::InvalidOperation)));
    assert_eq!(nc.render(99), Err(NcError::InvalidOperation));
}

#[test]
fn planes_are_clipped_to_the_screen() {
    let mut nc = NcPiles::new(2, 2).unwrap();
    let a = nc.create_root(&NcPlaneOptions::new(-1, 1, 3, 3)).unwrap();
    let of_a = glyph(&mut nc, a, "a", (1, 1, 1));
    fill(&mut nc, a, &of_a);
    let m = nc.compose(a).unwrap();
    assert_eq!(m.cell_at(0, 0).unwrap().egc, "");
    assert_eq!(m.cell_at(0, 1).unwrap().egc, "a");
    assert_eq!(m.cell_at(1, 0).unwrap().egc, "");
    assert_eq!(m.cell_at(1, 1).unwrap().egc, "a");
}

#[test]
fn a_rendering_is_kept_until_the_next() {
    let mut nc = NcPiles::new(1, 1).unwrap();
    let a = nc.create_root(&NcPlaneOptions::new(0, 0, 1, 1)).unwrap();
    assert!(nc.rendered(a).is_none());
    nc.render(a).unwrap();
    assert_eq!(nc.rendered(a).unwrap().cell(0).unwrap().egc, "");
    let x = glyph(&mut nc, a, "x", (1, 1, 1));
    fill(&mut nc, a, &x);
    assert_eq!(nc.rendered(a).unwrap().cell(0).unwrap().egc, "");
    nc.render(a).unwrap();
    assert_eq!(nc.rendered(a).unwrap().cell(0).unwrap().egc, "x");
}

#[test]
fn colours_blend_down_to_the_first_opaque_one() {
    let mut nc = NcPiles::new(1, 1).unwrap();
    let a = nc.create_root(&NcPlaneOptions::new(0, 0, 1, 1)).unwrap();
    let b = nc.create_bound(a, &NcPlaneOptions::new(0, 0, 1, 1)).unwrap();
    let c = nc.create_bound(b, &NcPlaneOptions::new(0, 0, 1, 1)).unwrap();
    let d = nc.create_bound(c, &NcPlaneOptions::new(0, 0, 1, 1)).unwrap();
    assert_eq!(nc.z_order(a), vec![d, c, b, a]);
    let mut top = NcCell::new();
    top.set_bg_rgb8(100, 0, 50);
    top.set_bg_alpha(NCALPHA_BLEND);
    let mut clear = NcCell::new();
    clear.set_bg_rgb8(255, 255, 255);
    clear.set_bg_alpha(NCALPHA_TRANSPARENT);
    let mut solid = NcCell::new();
    solid.set_bg_rgb8(0, 100, 51);
    let mut hidden = NcCell::new();
    hidden.set_bg_rgb8(9, 9, 9);
    hidden.set_fg_rgb8(7, 8, 9);
    fill(&mut nc, d, &top);
    fill(&mut nc, c, &clear);
    fill(&mut nc, b, &solid);
    fill(&mut nc, a, &hidden);
    let m = nc.compose(a).unwrap();
    let mut want = NcCell::new();
    want.set_bg_rgb8(50, 50, 50);
    want.set_fg_rgb8(7, 8, 9);
    assert_eq!(m.cell(0).unwrap().channels, want.channels);
}

fn none() -> Paint {
    Paint { r: 0, g: 0, b: 0, palette: false, index: 0, count: 0, locked: false }
}

#[test]
fn blending_averages_and_locks() {
    assert_eq!(average(10, 1, 20), 15);
    assert_eq!(average(10, 2, 40), 20);
    assert_eq!(average(255, u32::MAX, 255), 255);
    assert_eq!(average(0, 0, 7), 7);
    assert_eq!(blend(none(), 0), none());
    assert_eq!(blend(none(), 0x6011_2233), none());
    let first = blend(none(), 0x5011_2233);
    assert_eq!(first, Paint { r: 0x11, g: 0x22, b: 0x33, count: 1, ..none() });
    let second = blend(first, 0x4033_2211);
    assert_eq!(second, Paint { r: 0x22, g: 0x22, b: 0x22, count: 2, locked: true, ..none() });
    assert_eq!(blend(second, 0x40ff_ffff), second);
    let indexed = blend(none(), 0x4800_0007);
    assert_eq!(indexed, Paint { r: 0, g: 0, b: 7, palette: true, index: 7, count: 1, locked: true });
    assert_eq!(finish(none()), 0);
    assert_eq!(finish(second), 0x4022_2222);
    assert_eq!(finish(indexed), 0x4800_0007);
    let under_palette = blend(blend(none(), 0x5800_0007), 0x4011_2233);
    assert_eq!(finish(under_palette), 0x4800_0007);
    let high = blend(none(), 0x7001_0203);
    assert!(high.locked);
    assert_eq!(finish(high), 0x4001_0203);
}

fn hi() -> NcPiles {
    let mut nc = NcPiles::new(1, 2).unwrap();
    let a = nc.create_root(&NcPlaneOptions::new(0, 0, 1, 2)).unwrap();
    let plane = nc.plane_mut(a).unwrap();
    plane.put_cell(0, 0, &NcCell::from_char7b('h').unwrap()).unwrap();
    plane.put_cell(0, 1, &NcCell::from_char7b('i').unwrap()).unwrap();
    nc.render(a).unwrap();
    nc
}

#[test]
fn rasterizing_writes_the_cells_that_differ() {
    let mut nc = hi();
    let a = nc.z_order(0)[0];
    let mut term = NcTerminal::new(1, 2).unwrap();
    assert_eq!(term.size(), (1, 2));
    let bytes = term.rasterize(nc.rendered(a).unwrap()).unwrap();
    assert_eq!(bytes, b"\x1b[1;1H\x1b[0;39;49mh\x1b[1;2H\x1b[0;39;49mi");
    // the terminal is up to date now
    assert_eq!(term.rasterize(nc.rendered(a).unwrap()).unwrap(), b"");
    let mut j = NcCell::from_char7b('j').unwrap();
    j.set_fg_rgb8(1, 20, 255);
    j.set_bg_palindex(200);
    j.styles_set(NCSTYLE_BOLD | NCSTYLE_STRUCK | NCSTYLE_UNDERCURL);
    nc.plane_mut(a).unwrap().put_cell(0, 1, &j).unwrap();
    nc.render(a).unwrap();
    let bytes = term.rasterize(nc.rendered(a).unwrap()).unwrap();
    assert_eq!(bytes, b"\x1b[1;2H\x1b[0;1;4:3;9;38;2;1;20;255;48;5;200mj");
    // clearing a cell writes a space
    nc.plane_mut(a).unwrap().put_cell(0, 0, &NcCell::new()).unwrap();
    nc.render(a).unwrap();
    let bytes = term.rasterize(nc.rendered(a).unwrap()).unwrap();
    assert_eq!(bytes, b"\x1b[1;1H\x1b[0;39;49m ");
}

#[test]
fn rasterizing_writes_clusters_as_utf8_at_their_place() {
    let mut nc = NcPiles::new(12, 3).unwrap();
    let a = nc.create_root(&NcPlaneOptions::new(0, 0, 12, 3)).unwrap();
    let e = NcCell::from_str(nc.plane_mut(a).unwrap(), "e\u{301}").unwrap();
    nc.plane_mut(a).unwrap().put_cell(11, 2, &e).unwrap();
    let m = nc.compose(a).unwrap();
    let mut term = NcTerminal::new(12, 3).unwrap();
    let bytes = term.rasterize(&m).unwrap();
    assert_eq!(bytes, "\x1b[12;3H\x1b[0;39;49me\u{301}".as_bytes());
}

#[test]
fn rasterizing_for_another_screen_is_refused() {
    let nc = hi();
    let a = nc.z_order(0)[0];
    let mut term = NcTerminal::new(2, 2).unwrap();
    assert_eq!(term.rasterize(nc.rendered(a).unwrap()), Err(NcError::InvalidOperation));
    assert!(matches!(NcTerminal::new(0, 2), Err(NcError::AllocationError)));
    assert!(matches!(NcTerminal::new(0x1_0000, 0x1_0000), Err(NcError::AllocationError)));
}
