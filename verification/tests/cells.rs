use ncpile::cell::boxes::{NCBOXASCII, NCBOXDOUBLE, NCBOXHEAVY, NCBOXLIGHT, NCBOXROUND};
use ncpile::channel::{
    NCALPHA_BLEND, NCALPHA_HIGHCONTRAST, NCALPHA_OPAQUE, NCALPHA_TRANSPARENT,
};
use ncpile::pile::NcPiles;
use ncpile::style::{NCSTYLE_BOLD, NCSTYLE_ITALIC, NCSTYLE_UNDERLINE};
use ncpile::{NcCell, NcError, NcPlaneOptions};

fn one_plane() -> (NcPiles, usize) {
    let mut nc = NcPiles::new(24, 80).unwrap();
    let p = nc.create_root(&NcPlaneOptions::new(0, 0, 4, 8)).unwrap();
    (nc, p)
}

#[test]
fn from_char7b_takes_ascii_only() {
    let c = NcCell::from_char7b('a').unwrap();
    assert_eq!(c.gcluster, 0x61);
    assert_eq!(c.gcluster_backstop, 0);
    assert_eq!(c.width, 0);
    assert_eq!(c.stylemask, 0);
    assert_eq!(c.channels, 0);
    assert_eq!(NcCell::from_char7b('\u{7f}').unwrap().gcluster, 0x7f);
    assert_eq!(NcCell::from_char7b('\u{80}'), Err(NcError::CellEncodingError));
    assert_eq!(NcCell::from_char7b('é'), Err(NcError::CellEncodingError));
}

#[test]
fn new_cell_is_all_zero() {
    let c = NcCell::new();
    assert_eq!(c, NcCell { gcluster: 0, gcluster_backstop: 0, width: 0, stylemask: 0, channels: 0 });
    assert_eq!(c, NcCell::from_char7b('\0').unwrap());
}

#[test]
fn init_zeroes_a_cell() {
    let mut c = NcCell { gcluster: 0x41, gcluster_backstop: 0, width: 1, stylemask: 3, channels: 9 };
    c.init();
    assert_eq!(c, NcCell::new());
}

#[test]
fn from_char_takes_base_characters() {
    let (mut nc, p) = one_plane();
    let plane = nc.plane_mut(p).unwrap();
    let c = NcCell::from_char(plane, 'é').unwrap();
    assert_eq!(c.gcluster, 0xe9);
    assert_eq!(c.width, 1);
    assert_eq!(c.strdup(plane), "é");
    let wide = NcCell::from_char(plane, '日').unwrap();
    assert_eq!(wide.width, 2);
    assert!(wide.double_wide_p());
    assert_eq!(NcCell::from_char(plane, '\n'), Err(NcError::CellEncodingError));
    assert_eq!(NcCell::from_char(plane, '\u{301}'), Err(NcError::CellEncodingError));
    assert_eq!(plane.pool_used(), 0);
}

#[test]
fn load_keeps_a_single_scalar_in_the_cell() {
    let (mut nc, p) = one_plane();
    let plane = nc.plane_mut(p).unwrap();
    let mut c = NcCell::new();
    assert_eq!(NcCell::load(plane, &mut c, "abc"), Ok(1));
    assert_eq!(c.gcluster, 0x61);
    assert_eq!(c.width, 1);
    assert_eq!(c.cols(), 1);
    assert_eq!(NcCell::load(plane, &mut c, "éx"), Ok(2));
    assert_eq!(c.gcluster, 0xe9);
    assert_eq!(NcCell::load(plane, &mut c, "日本"), Ok(3));
    assert_eq!(c.gcluster, 0x65e5);
    assert_eq!(c.width, 2);
    assert_eq!(c.cols(), 2);
    assert_eq!(NcCell::load(plane, &mut c, "😀"), Ok(4));
    assert_eq!(c.gcluster, 0x1f600);
    assert_eq!(plane.pool_used(), 0);
}

#[test]
fn load_puts_a_longer_cluster_into_the_pool() {
    let (mut nc, p) = one_plane();
    let plane = nc.plane_mut(p).unwrap();
    let mut c = NcCell::new();
    assert_eq!(NcCell::load(plane, &mut c, "e\u{301}x"), Ok(3));
    assert_eq!(c.gcluster, 0x0100_0000);
    assert_eq!(c.width, 1);
    assert_eq!(plane.pool_used(), 1);
    assert_eq!(c.strdup(plane), "e\u{301}");
    assert_eq!(c.extended_gcluster(plane), "e\u{301}");
    let mut d = NcCell::new();
    assert_eq!(NcCell::load(plane, &mut d, "👨\u{200d}👩 "), Ok(11));
    assert_eq!(d.gcluster, 0x0100_0001);
    assert_eq!(d.width, 2);
    assert_eq!(d.strdup(plane), "👨\u{200d}👩");
    assert_eq!(plane.pool_used(), 2);
    // loading again releases the old cluster and takes the first free slot
    assert_eq!(NcCell::load(plane, &mut c, "o\u{308}"), Ok(3));
    assert_eq!(c.gcluster, 0x0100_0000);
    assert_eq!(c.strdup(plane), "o\u{308}");
    assert_eq!(plane.pool_used(), 2);
}

#[test]
fn load_of_nothing_empties_the_cell() {
    let (mut nc, p) = one_plane();
    let plane = nc.plane_mut(p).unwrap();
    let mut c = NcCell::new();
    c.stylemask = NCSTYLE_BOLD;
    c.channels = 7;
    NcCell::load(plane, &mut c, "e\u{301}").unwrap();
    assert_eq!(NcCell::load(plane, &mut c, ""), Ok(0));
    assert_eq!(c.gcluster, 0);
    assert_eq!(c.width, 0);
    assert_eq!(c.stylemask, NCSTYLE_BOLD);
    assert_eq!(c.channels, 7);
    assert_eq!(plane.pool_used(), 0);
}

#[test]
fn load_rejects_malformed_clusters() {
    let (mut nc, p) = one_plane();
    let plane = nc.plane_mut(p).unwrap();
    let mut c = NcCell::new();
    NcCell::load(plane, &mut c, "e\u{301}").unwrap();
    assert_eq!(NcCell::load(plane, &mut c, "\u{1b}[0m"), Err(NcError::CellEncodingError));
    assert_eq!(c.gcluster, 0);
    assert_eq!(plane.pool_used(), 0);
    assert_eq!(NcCell::load(plane, &mut c, "\u{301}a"), Err(NcError::CellEncodingError));
    assert_eq!(NcCell::load(plane, &mut c, "\u{200d}a"), Err(NcError::CellEncodingError));
}

#[test]
fn load_rejects_oversized_clusters() {
    let (mut nc, p) = one_plane();
    let plane = nc.plane_mut(p).unwrap();
    let mut c = NcCell::new();
    let mut longest = String::from("a");
    for _ in 0..31 {
        longest.push('\u{301}');
    }
    assert_eq!(NcCell::load(plane, &mut c, &longest), Ok(63));
    assert_eq!(c.strdup(plane), longest);
    let mut too_long = longest.clone();
    too_long.push('\u{301}');
    assert_eq!(NcCell::load(plane, &mut c, &too_long), Err(NcError::CellEncodingError));
    assert_eq!(c.gcluster, 0);
    assert_eq!(plane.pool_used(), 0);
}

#[test]
fn from_str_loads_a_fresh_cell() {
    let (mut nc, p) = one_plane();
    let plane = nc.plane_mut(p).unwrap();
    let c = NcCell::from_str(plane, "x\u{30a}y").unwrap();
    assert_eq!(c.strdup(plane), "x\u{30a}");
    assert_eq!(c.stylemask, 0);
    assert_eq!(c.channels, 0);
    assert_eq!(NcCell::from_str(plane, "\t"), Err(NcError::CellEncodingError));
}

#[test]
fn prime_sets_styles_and_channels() {
    let (mut nc, p) = one_plane();
    let plane = nc.plane_mut(p).unwrap();
    let mut c = NcCell::new();
    assert_eq!(NcCell::prime(plane, &mut c, "qr", NCSTYLE_ITALIC, 0x4011_2233_0000_0000), Ok(1));
    assert_eq!(c.gcluster, 0x71);
    assert_eq!(c.stylemask, NCSTYLE_ITALIC);
    assert_eq!(c.channels, 0x4011_2233_0000_0000);
}

#[test]
fn release_frees_the_pool_slot() {
    let (mut nc, p) = one_plane();
    let plane = nc.plane_mut(p).unwrap();
    let mut c = NcCell::from_str(plane, "e\u{301}").unwrap();
    c.stylemask = NCSTYLE_BOLD;
    assert_eq!(plane.pool_used(), 1);
    c.release(plane);
    assert_eq!(plane.pool_used(), 0);
    assert_eq!(c.gcluster, 0);
    assert_eq!(c.width, 0);
    assert_eq!(c.stylemask, NCSTYLE_BOLD);
    assert_eq!(c.strdup(plane), "");
}

#[test]
fn duplicate_gets_a_slot_of_its_own() {
    let (mut nc, p) = one_plane();
    let plane = nc.plane_mut(p).unwrap();
    let mut c = NcCell::from_str(plane, "e\u{301}").unwrap();
    c.channels = 5;
    let d = c.duplicate(plane).unwrap();
    assert_eq!(d.gcluster, 0x0100_0001);
    assert_eq!(d.channels, 5);
    assert_eq!(plane.pool_used(), 2);
    c.release(plane);
    assert_eq!(d.strdup(plane), "e\u{301}");
    let plain = NcCell::from_char7b('z').unwrap();
    assert_eq!(plain.duplicate(plane), Ok(plain));
    assert_eq!(plane.pool_used(), 1);
}

#[test]
fn compare_holds_clusters_against_each_other() {
    let mut nc = NcPiles::new(24, 80).unwrap();
    let p = nc.create_root(&NcPlaneOptions::new(0, 0, 2, 2)).unwrap();
    let q = nc.create_root(&NcPlaneOptions::new(0, 0, 2, 2)).unwrap();
    let filler = NcCell::from_str(nc.plane_mut(q).unwrap(), "o\u{308}").unwrap();
    let a = NcCell::from_str(nc.plane_mut(p).unwrap(), "e\u{301}").unwrap();
    let b = NcCell::from_str(nc.plane_mut(q).unwrap(), "e\u{301}").unwrap();
    assert_ne!(a.gcluster, b.gcluster);
    assert_eq!(filler.gcluster, a.gcluster);
    let (pp, pq) = (nc.plane(p).unwrap(), nc.plane(q).unwrap());
    assert!(!NcCell::compare(pp, &a, pq, &b));
    assert!(NcCell::compare(pp, &a, pq, &filler));
    let mut styled = a;
    styled.stylemask = NCSTYLE_UNDERLINE;
    assert!(NcCell::compare(pp, &a, pp, &styled));
    let mut coloured = a;
    coloured.channels = 1;
    assert!(NcCell::compare(pp, &a, pp, &coloured));
}

#[test]
fn extract_hands_out_the_three_parts() {
    let (mut nc, p) = one_plane();
    let plane = nc.plane_mut(p).unwrap();
    let mut c = NcCell::new();
    NcCell::prime(plane, &mut c, "é", NCSTYLE_BOLD, 0x1234).unwrap();
    let (mut styles, mut channels) = (0, 0);
    assert_eq!(c.extract(plane, &mut styles, &mut channels), "é");
    assert_eq!(styles, NCSTYLE_BOLD);
    assert_eq!(channels, 0x1234);
    assert_eq!(c.egc(plane), "é");
    assert_eq!(c.channels(plane), 0x1234);
    assert_eq!(c.styles(), NCSTYLE_BOLD);
}

#[test]
fn a_cell_that_names_nothing_shows_nothing() {
    let (nc, p) = one_plane();
    let plane = nc.plane(p).unwrap();
    let dangling = NcCell { gcluster: 0x0100_0007, ..NcCell::new() };
    assert_eq!(dangling.strdup(plane), "");
    let surrogate = NcCell { gcluster: 0xd800, ..NcCell::new() };
    assert_eq!(surrogate.strdup(plane), "");
    let beyond = NcCell { gcluster: 0x0300_0000, ..NcCell::new() };
    assert_eq!(beyond.strdup(plane), "");
    assert_eq!(NcCell::new().strdup(plane), "");
}

#[test]
fn foreground_colour_round_trip() {
    let mut c = NcCell::new();
    assert!(c.fg_default_p());
    c.set_fg_rgb8(0x11, 0x22, 0x33);
    assert_eq!(c.channels, 0x4011_2233_0000_0000);
    assert_eq!(c.fg_rgb8(), (0x11, 0x22, 0x33));
    assert_eq!(c.fg_rgb(), 0x11_2233);
    assert!(!c.fg_default_p());
    assert!(!c.fg_palindex_p());
    assert!(c.bg_default_p());
    c.set_fg_rgb(0xff_aabbcc);
    assert_eq!(c.fg_rgb(), 0xaa_bbcc);
    c.set_fg_default();
    assert!(c.fg_default_p());
    assert_eq!(c.fg_alpha(), NCALPHA_OPAQUE);
    assert_eq!(c.fg_rgb(), 0xaa_bbcc);
}

#[test]
fn background_colour_round_trip() {
    let mut c = NcCell::new();
    c.set_bg_rgb8(1, 2, 3);
    assert_eq!(c.channels, 0x0000_0000_4001_0203);
    assert_eq!(c.bg_rgb8(), (1, 2, 3));
    assert_eq!(c.bg_rgb(), 0x01_0203);
    assert!(!c.bg_default_p());
    assert!(c.fg_default_p());
    c.set_bg_rgb(0x0a0b0c);
    assert_eq!(c.bg_rgb8(), (0x0a, 0x0b, 0x0c));
    c.set_bg_default();
    assert!(c.bg_default_p());
    assert_eq!(c.channels, 0x0000_0000_000a_0b0c);
}

#[test]
fn alpha_round_trip() {
    let mut c = NcCell::new();
    c.set_fg_alpha(NCALPHA_BLEND);
    assert_eq!(c.fg_alpha(), NCALPHA_BLEND);
    assert_eq!(c.channels, 0x5000_0000_0000_0000);
    c.set_fg_alpha(NCALPHA_HIGHCONTRAST);
    assert_eq!(c.fg_alpha(), NCALPHA_HIGHCONTRAST);
    c.set_bg_alpha(NCALPHA_TRANSPARENT);
    assert_eq!(c.bg_alpha(), NCALPHA_TRANSPARENT);
    assert!(!c.bg_default_p());
    c.set_bg_alpha(NCALPHA_HIGHCONTRAST);
    assert_eq!(c.bg_alpha(), NCALPHA_OPAQUE);
    let mut d = NcCell::new();
    d.set_bg_alpha(NCALPHA_OPAQUE);
    assert_eq!(d.channels, 0);
    assert!(d.bg_default_p());
}

#[test]
fn palette_round_trip() {
    let mut c = NcCell::new();
    c.set_fg_alpha(NCALPHA_BLEND);
    c.set_fg_palindex(5);
    assert_eq!(c.channels, 0x4800_0005_0000_0000);
    assert!(c.fg_palindex_p());
    assert_eq!(c.fg_palindex(), 5);
    assert_eq!(c.fg_alpha(), NCALPHA_OPAQUE);
    c.set_bg_palindex(200);
    assert!(c.bg_palindex_p());
    assert_eq!(c.bg_palindex(), 200);
    assert_eq!(c.channels, 0x4800_0005_4800_00c8);
    assert!(!NcCell::new().bg_palindex_p());
    // a colour given as RGB is no palette colour any more
    c.set_fg_rgb8(1, 2, 3);
    assert!(!c.fg_palindex_p());
    assert_eq!(c.fg_rgb8(), (1, 2, 3));
    assert_eq!(c.channels, 0x4001_0203_4800_00c8);
    c.set_bg_rgb(0x0a0b0c);
    assert!(!c.bg_palindex_p());
    assert_eq!(c.channels, 0x4001_0203_400a_0b0c);
}

#[test]
fn styles_are_set_added_and_removed() {
    let mut c = NcCell::new();
    c.styles_set(NCSTYLE_BOLD | NCSTYLE_ITALIC);
    assert_eq!(c.styles(), 0x12);
    c.styles_on(NCSTYLE_UNDERLINE);
    assert_eq!(c.styles(), 0x1a);
    c.styles_off(NCSTYLE_BOLD | NCSTYLE_UNDERLINE);
    assert_eq!(c.styles(), NCSTYLE_ITALIC);
}

#[test]
fn wide_predicates() {
    let mut c = NcCell::new();
    assert_eq!(c.cols(), 1);
    assert!(!c.double_wide_p());
    c.width = 2;
    assert!(c.double_wide_p());
    assert!(c.wide_right_p());
    assert!(c.wide_left_p());
    c.gcluster = 0x65e5;
    assert!(!c.wide_right_p());
    assert!(!c.wide_left_p());
    assert_eq!(c.cols(), 2);
}

fn six() -> [NcCell; 6] {
    [NcCell::new(); 6]
}

#[test]
fn load_box_loads_six_cells() {
    let (mut nc, p) = one_plane();
    let plane = nc.plane_mut(p).unwrap();
    let [mut ul, mut ur, mut ll, mut lr, mut hl, mut vl] = six();
    let r = NcCell::load_box(
        plane, NCSTYLE_BOLD, 9, &mut ul, &mut ur, &mut ll, &mut lr, &mut hl, &mut vl,
        "ae\u{301}cdo\u{308}f and more",
    );
    assert_eq!(r, Ok(()));
    assert_eq!(ul.strdup(plane), "a");
    assert_eq!(ur.strdup(plane), "e\u{301}");
    assert_eq!(ll.strdup(plane), "c");
    assert_eq!(lr.strdup(plane), "d");
    assert_eq!(hl.strdup(plane), "o\u{308}");
    assert_eq!(vl.strdup(plane), "f");
    for c in [ul, ur, ll, lr, hl, vl] {
        assert_eq!(c.stylemask, NCSTYLE_BOLD);
        assert_eq!(c.channels, 9);
    }
    assert_eq!(plane.pool_used(), 2);
}

#[test]
fn load_box_with_fewer_than_six_glyphs_fails_and_leaks_nothing() {
    let (mut nc, p) = one_plane();
    let plane = nc.plane_mut(p).unwrap();
    let kept = NcCell::from_str(plane, "u\u{308}").unwrap();
    let [mut ul, mut ur, mut ll, mut lr, mut hl, mut vl] = six();
    vl.gcluster = 0x7a;
    let r = NcCell::load_box(
        plane, NCSTYLE_BOLD, 9, &mut ul, &mut ur, &mut ll, &mut lr, &mut hl, &mut vl,
        "e\u{301}o\u{308}a\u{30a}x\u{302}y\u{303}",
    );
    assert_eq!(r, Err(NcError::CellEncodingError));
    for c in [ul, ur, ll, lr, hl] {
        assert_eq!(c.gcluster, 0);
        assert_eq!(c.stylemask, NCSTYLE_BOLD);
    }
    assert_eq!(vl.gcluster, 0);
    assert_eq!(plane.pool_used(), 1);
    assert_eq!(kept.strdup(plane), "u\u{308}");
}

#[test]
fn load_box_stops_at_a_malformed_glyph() {
    let (mut nc, p) = one_plane();
    let plane = nc.plane_mut(p).unwrap();
    let [mut ul, mut ur, mut ll, mut lr, mut hl, mut vl] = six();
    lr.gcluster = 0x7a;
    let r = NcCell::load_box(
        plane, 0, 0, &mut ul, &mut ur, &mut ll, &mut lr, &mut hl, &mut vl, "e\u{301}b\ndef",
    );
    assert_eq!(r, Err(NcError::CellEncodingError));
    assert_eq!((ul.gcluster, ur.gcluster, ll.gcluster), (0, 0, 0));
    assert_eq!(lr.gcluster, 0x7a);
    assert_eq!(plane.pool_used(), 0);
    let empty = NcCell::load_box(
        plane, 0, 0, &mut ul, &mut ur, &mut ll, &mut lr, &mut hl, &mut vl, "",
    );
    assert_eq!(empty, Err(NcError::CellEncodingError));
}

fn glyphs_of(cells: [NcCell; 6]) -> String {
    cells.iter().map(|c| char::from_u32(c.gcluster).unwrap()).collect()
}

#[test]
fn the_named_boxes_load_their_glyphs() {
    let (mut nc, p) = one_plane();
    let plane = nc.plane_mut(p).unwrap();
    let [mut ul, mut ur, mut ll, mut lr, mut hl, mut vl] = six();
    NcCell::ascii_box(plane, 0, 1, &mut ul, &mut ur, &mut ll, &mut lr, &mut hl, &mut vl).unwrap();
    assert_eq!(glyphs_of([ul, ur, ll, lr, hl, vl]), NCBOXASCII);
    assert_eq!(glyphs_of([ul, ur, ll, lr, hl, vl]), "/\\\\/-|");
    NcCell::double_box(plane, 0, 1, &mut ul, &mut ur, &mut ll, &mut lr, &mut hl, &mut vl).unwrap();
    assert_eq!(glyphs_of([ul, ur, ll, lr, hl, vl]), NCBOXDOUBLE);
    NcCell::rounded_box(plane, 0, 1, &mut ul, &mut ur, &mut ll, &mut lr, &mut hl, &mut vl).unwrap();
    assert_eq!(glyphs_of([ul, ur, ll, lr, hl, vl]), NCBOXROUND);
    NcCell::heavy_box(plane, 0, 1, &mut ul, &mut ur, &mut ll, &mut lr, &mut hl, &mut vl).unwrap();
    assert_eq!(glyphs_of([ul, ur, ll, lr, hl, vl]), NCBOXHEAVY);
    NcCell::light_box(plane, 2, 1, &mut ul, &mut ur, &mut ll, &mut lr, &mut hl, &mut vl).unwrap();
    assert_eq!(glyphs_of([ul, ur, ll, lr, hl, vl]), NCBOXLIGHT);
    assert_eq!(ul.gcluster, 0x250c);
    assert_eq!(ul.width, 1);
    assert_eq!(ul.stylemask, 2);
    assert_eq!(ul.channels, 1);
    assert_eq!(plane.pool_used(), 0);
}
