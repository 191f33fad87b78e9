use ncpile::blitter::{blit_outcome, check_lines, line_size_arg};
use ncpile::{NcCell, NcError, NcPiles, NcPlaneOptions, NcResizeCb};

fn plane(rows: u32, cols: u32) -> (NcPiles, usize) {
    let mut nc = NcPiles::new(24, 80).unwrap();
    let p = nc.create_root(&NcPlaneOptions::new(0, 0, rows, cols)).unwrap();
    (nc, p)
}

fn picture(nc: &NcPiles, p: usize) -> Vec<String> {
    let pl = nc.plane(p).unwrap();
    (0..pl.rows())
        .map(|y| {
            (0..pl.cols())
                .map(|x| {
                    let g = pl.egc_at(y, x).unwrap();
                    if g.is_empty() { ".".to_string() } else { g }
                })
                .collect()
        })
        .collect()
}

#[test]
fn lines_are_drawn_and_clipped() {
    let (mut nc, p) = plane(3, 5);
    let pl = nc.plane_mut(p).unwrap();
    let dash = NcCell::from_char7b('-').unwrap();
    let bar = NcCell::from_char7b('|').unwrap();
    assert_eq!(pl.hline(1, 1, &dash, 3), Ok(3));
    assert_eq!(pl.vline(0, 4, &bar, 9), Ok(3));
    assert_eq!(pl.hline(2, 3, &dash, 9), Ok(2));
    assert_eq!(pl.hline(0, 0, &dash, 0), Ok(0));
    assert_eq!(pl.hline(3, 0, &dash, 1), Err(NcError::InvalidOperation));
    assert_eq!(pl.vline(0, 5, &bar, 1), Err(NcError::InvalidOperation));
    assert_eq!(picture(&nc, p), ["....|", ".---|", "...--"]);
}

#[test]
fn runs_of_pooled_clusters_get_a_slot_each() {
    let (mut nc, p) = plane(2, 3);
    let pl = nc.plane_mut(p).unwrap();
    let e = NcCell::from_str(pl, "e\u{301}").unwrap();
    assert_eq!(pl.pool_room(), 0x0100_0000 - 1);
    assert_eq!(pl.hline(0, 0, &e, 3), Ok(3));
    assert_eq!(pl.pool_used(), 4);
    assert_eq!(pl.egc_at(0, 2).unwrap(), "e\u{301}");
    assert_eq!(pl.fill(&e), Ok(()));
    assert_eq!(pl.pool_used(), 7);
    assert_eq!(picture(&nc, p), ["e\u{301}e\u{301}e\u{301}", "e\u{301}e\u{301}e\u{301}"]);
    let pl = nc.plane_mut(p).unwrap();
    pl.erase();
    assert_eq!(pl.pool_used(), 1);
    assert_eq!(pl.pool_room(), 0x0100_0000 - 1);
    assert_eq!(e.strdup(pl), "e\u{301}");
    assert_eq!(picture(&nc, p), ["...", "..."]);
}

#[test]
fn a_box_is_drawn_around_a_rectangle() {
    let (mut nc, p) = plane(4, 6);
    let pl = nc.plane_mut(p).unwrap();
    let [mut ul, mut ur, mut ll, mut lr, mut hl, mut vl] = [NcCell::new(); 6];
    NcCell::light_box(pl, 0, 0, &mut ul, &mut ur, &mut ll, &mut lr, &mut hl, &mut vl).unwrap();
    assert_eq!(pl.draw_box(1, 1, 3, 4, &ul, &ur, &ll, &lr, &hl, &vl), Ok(()));
    assert_eq!(picture(&nc, p), ["......", ".┌──┐.", ".│..│.", ".└──┘."]);
    let pl = nc.plane_mut(p).unwrap();
    assert_eq!(pl.draw_box(0, 0, 2, 2, &ul, &ur, &ll, &lr, &hl, &vl), Ok(()));
    assert_eq!(picture(&nc, p), ["┌┐....", "└┘──┐.", ".│..│.", ".└──┘."]);
    let pl = nc.plane_mut(p).unwrap();
    for (y, x, rows, cols) in [(0, 0, 1, 3), (0, 0, 3, 1), (2, 0, 3, 3), (0, 4, 3, 3), (4, 0, 2, 2)] {
        assert_eq!(
            pl.draw_box(y, x, rows, cols, &ul, &ur, &ll, &lr, &hl, &vl),
            Err(NcError::InvalidOperation)
        );
    }
    assert_eq!(picture(&nc, p), ["┌┐....", "└┘──┐.", ".│..│.", ".└──┘."]);
}

#[test]
fn a_box_of_pooled_clusters_takes_a_slot_for_each_cell() {
    let (mut nc, p) = plane(3, 3);
    let pl = nc.plane_mut(p).unwrap();
    let [mut ul, mut ur, mut ll, mut lr, mut hl, mut vl] = [NcCell::new(); 6];
    NcCell::load_box(
        pl, 0, 0, &mut ul, &mut ur, &mut ll, &mut lr, &mut hl, &mut vl,
        "a\u{301}b\u{301}c\u{301}d\u{301}-\u{301}i\u{301}",
    )
    .unwrap();
    assert_eq!(pl.pool_used(), 6);
    pl.draw_box(0, 0, 3, 3, &ul, &ur, &ll, &lr, &hl, &vl).unwrap();
    assert_eq!(pl.pool_used(), 14);
    assert_eq!(
        picture(&nc, p),
        ["a\u{301}-\u{301}b\u{301}", "i\u{301}.i\u{301}", "c\u{301}-\u{301}d\u{301}"]
    );
}

#[test]
fn resizing_keeps_the_upper_left_corner() {
    let (mut nc, p) = plane(2, 3);
    let pl = nc.plane_mut(p).unwrap();
    let e = NcCell::from_str(pl, "e\u{301}").unwrap();
    pl.fill(&e).unwrap();
    pl.put_cell(0, 0, &NcCell::from_char7b('a').unwrap()).unwrap();
    pl.put_cell(1, 2, &NcCell::from_char7b('z').unwrap()).unwrap();
    assert_eq!(pl.pool_used(), 5);
    assert_eq!(pl.resize(3, 2), Ok(()));
    assert_eq!((pl.rows(), pl.cols()), (3, 2));
    assert_eq!(pl.pool_used(), 4);
    assert_eq!(picture(&nc, p), ["ae\u{301}", "e\u{301}e\u{301}", ".."]);
    let pl = nc.plane_mut(p).unwrap();
    assert_eq!(pl.resize(0, 2), Err(NcError::AllocationError));
    assert_eq!(pl.resize(2, 0), Err(NcError::AllocationError));
    assert_eq!(pl.resize(0x1_0000, 0x1_0000), Err(NcError::AllocationError));
    assert_eq!((pl.rows(), pl.cols()), (3, 2));
    assert_eq!(pl.resize(1, 1), Ok(()));
    assert_eq!(pl.pool_used(), 1);
    assert_eq!(picture(&nc, p), ["a"]);
}

#[test]
fn resizing_gives_back_the_callbacks_of_the_children() {
    let mut nc = NcPiles::new(24, 80).unwrap();
    let a = nc.create_root(&NcPlaneOptions::new(0, 0, 2, 2)).unwrap();
    let with_cb = |key| NcPlaneOptions::builder().rows_cols(1, 1).resizecb(Some(NcResizeCb(key))).build();
    let b = nc.create_bound(a, &with_cb(7)).unwrap();
    let c = nc.create_bound(a, &NcPlaneOptions::new(0, 0, 1, 1)).unwrap();
    let d = nc.create_bound(a, &with_cb(9)).unwrap();
    let e = nc.create_bound(b, &with_cb(11)).unwrap();
    assert_eq!(nc.resize(a, 5, 6), Ok(vec![(b, NcResizeCb(7)), (d, NcResizeCb(9))]));
    assert_eq!(nc.plane(a).unwrap().rows(), 5);
    assert_eq!(nc.resize(b, 2, 2), Ok(vec![(e, NcResizeCb(11))]));
    assert_eq!(nc.resize(c, 2, 2), Ok(vec![]));
    assert_eq!(nc.resize(a, 0, 6), Err(NcError::AllocationError));
    assert_eq!(nc.resize(99, 1, 1), Err(NcError::InvalidOperation));
    nc.plane_mut(d).unwrap().set_resizecb(None);
    assert_eq!(nc.resize(a, 1, 1), Ok(vec![(b, NcResizeCb(7))]));
}

#[test]
fn a_plane_takes_its_family_along() {
    let mut nc = NcPiles::new(24, 80).unwrap();
    let a = nc.create_root(&NcPlaneOptions::new(1, 1, 2, 2)).unwrap();
    let b = nc.create_bound(a, &NcPlaneOptions::new(2, 3, 1, 1)).unwrap();
    let c = nc.create_bound(b, &NcPlaneOptions::new(-1, -1, 1, 1)).unwrap();
    let other = nc.create_bound(a, &NcPlaneOptions::new(0, 0, 1, 1)).unwrap();
    assert_eq!(nc.plane(b).unwrap().abs_yx(), (3, 4));
    assert_eq!(nc.plane(c).unwrap().abs_yx(), (2, 3));
    assert_eq!(nc.move_yx(b, 5, 5), Ok(()));
    assert_eq!(nc.plane(b).unwrap().abs_yx(), (6, 6));
    assert_eq!(nc.plane(c).unwrap().abs_yx(), (5, 5));
    assert_eq!(nc.plane(a).unwrap().abs_yx(), (1, 1));
    assert_eq!(nc.plane(other).unwrap().abs_yx(), (1, 1));
    assert_eq!(nc.move_yx(a, -10, 0), Ok(()));
    assert_eq!(nc.plane(a).unwrap().abs_yx(), (-10, 0));
    assert_eq!(nc.plane(b).unwrap().abs_yx(), (-5, 5));
    assert_eq!(nc.plane(c).unwrap().abs_yx(), (-6, 4));
    assert_eq!(nc.plane(other).unwrap().abs_yx(), (-10, 0));
    assert_eq!(nc.move_yx(99, 0, 0), Err(NcError::InvalidOperation));
}

#[test]
fn a_plane_carries_what_it_was_given() {
    let mut nc = NcPiles::new(24, 80).unwrap();
    let mut o = NcPlaneOptions::builder().rows_cols(1, 1).fixed(true).build();
    o.name = Some("status".to_string());
    o.userptr = Some(42);
    let p = nc.create_root(&o).unwrap();
    let pl = nc.plane_mut(p).unwrap();
    assert_eq!(pl.name(), "status");
    assert_eq!(pl.userptr(), Some(42));
    assert_eq!(pl.flags(), 8);
    assert_eq!(pl.resizecb(), None);
    assert_eq!(pl.set_userptr(None), Some(42));
    assert_eq!(pl.userptr(), None);
    pl.set_resizecb(Some(NcResizeCb(3)));
    assert_eq!(pl.resizecb(), Some(NcResizeCb(3)));
    assert_eq!((pl.channels(), pl.styles()), (0, 0));
    pl.set_channels(0x1234);
    pl.set_styles(2);
    assert_eq!((pl.channels(), pl.styles()), (0x1234, 2));
    assert_eq!(pl.pool_slots(), 0);
    let q = nc.create_root(&NcPlaneOptions::new(0, 0, 1, 1)).unwrap();
    assert_eq!(nc.plane(q).unwrap().name(), "");
}

#[test]
fn blit_numbers_are_read_and_checked() {
    assert_eq!(blit_outcome(0), Ok(0));
    assert_eq!(blit_outcome(640), Ok(640));
    assert_eq!(blit_outcome(-1), Err(NcError::InvalidOperation));
    assert_eq!(line_size_arg(12), Ok(12));
    assert_eq!(line_size_arg(i32::MAX as usize), Ok(i32::MAX));
    assert_eq!(line_size_arg(i32::MAX as usize + 1), Err(NcError::InvalidOperation));
    assert!(check_lines(24, 12, 2, 3));
    assert!(check_lines(24, 12, 2, 4));
    assert!(!check_lines(23, 12, 2, 3));
    assert!(!check_lines(24, 10, 2, 4));
    assert!(!check_lines(24, 12, 2, 0));
    assert!(check_lines(0, 12, 0, 4));
    assert!(check_lines(0, 0, 5, 4));
}
