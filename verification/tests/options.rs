use ncpile::plane::options::{
    NCPLANE_OPTION_AUTOGROW, NCPLANE_OPTION_FIXED, NCPLANE_OPTION_HORALIGNED,
    NCPLANE_OPTION_MARGINALIZED, NCPLANE_OPTION_VERALIGNED, NCPLANE_OPTION_VSCROLL,
};
use ncpile::{NcAlign, NcError, NcPlaneFlags, NcPlaneOptions, NcPlaneOptionsBuilder, NcResizeCb};

#[test]
fn new_options_hold_placement_and_size() {
    let o = NcPlaneOptions::new(-1, 2, 3, 4);
    assert_eq!((o.y, o.x, o.rows, o.cols), (-1, 2, 3, 4));
    assert_eq!(o.flags, 0);
    assert_eq!((o.margin_b, o.margin_r), (0, 0));
    assert!(o.userptr.is_none() && o.name.is_none() && o.resizecb.is_none());
    assert!(!o.is_horaligned() && !o.is_veraligned() && !o.is_marginalized());
    assert!(!o.is_fixed() && !o.is_autogrow() && !o.is_vscroll());
}

#[test]
fn with_flags_takes_all_parts() {
    let o = NcPlaneOptions::with_flags(
        1, 2, 3, 4, Some(NcResizeCb(7)),
        NcPlaneFlags::fixed() | NcPlaneFlags::vscroll(), 5, 6,
    );
    assert_eq!((o.y, o.x, o.rows, o.cols), (1, 2, 3, 4));
    assert_eq!(o.resizecb, Some(NcResizeCb(7)));
    assert_eq!(o.flags, 0x28);
    assert_eq!((o.margin_b, o.margin_r), (5, 6));
    assert!(o.is_fixed() && o.is_vscroll());
    assert!(!o.is_autogrow());
}

#[test]
fn aligned_options_carry_the_flag_and_the_alignment() {
    let o = NcPlaneOptions::new_aligned(3, NcAlign::Center, 2, 10);
    assert_eq!(o.flags, NCPLANE_OPTION_HORALIGNED);
    assert_eq!(o.x, 2);
    assert!(o.is_horaligned());
    let p = NcPlaneOptions::with_flags_aligned(
        0, NcAlign::Right, 1, 1, None, NcPlaneFlags::auto_grow(),
    );
    assert_eq!(p.flags, NCPLANE_OPTION_HORALIGNED | NCPLANE_OPTION_AUTOGROW);
    assert_eq!(p.x, 3);
    assert!(p.is_horaligned() && p.is_autogrow());
    assert_eq!((p.margin_b, p.margin_r), (0, 0));
}

#[test]
fn flags_are_sets_of_bits() {
    assert_eq!(NcPlaneFlags::none().bits(), 0);
    assert_eq!(NcPlaneFlags::default(), NcPlaneFlags::none());
    assert_eq!(NcPlaneFlags::hor_aligned().bits(), NCPLANE_OPTION_HORALIGNED);
    assert_eq!(NcPlaneFlags::ver_aligned().bits(), NCPLANE_OPTION_VERALIGNED);
    assert_eq!(NcPlaneFlags::marginalized().bits(), NCPLANE_OPTION_MARGINALIZED);
    assert_eq!(NcPlaneFlags::fixed().bits(), NCPLANE_OPTION_FIXED);
    assert_eq!(NcPlaneFlags::auto_grow().bits(), NCPLANE_OPTION_AUTOGROW);
    assert_eq!(NcPlaneFlags::vscroll().bits(), NCPLANE_OPTION_VSCROLL);
    let both = NcPlaneFlags::fixed() | NcPlaneFlags::vscroll();
    assert!(both.contains(NcPlaneFlags::fixed()));
    assert!(!both.contains(NcPlaneFlags::auto_grow()));
    assert_eq!(both & NcPlaneFlags::fixed(), NcPlaneFlags::fixed());
}

#[test]
fn the_builder_collects_settings() {
    let o = NcPlaneOptions::builder()
        .yx(2, 3)
        .rows_cols(4, 5)
        .resizecb(Some(NcResizeCb(1)))
        .fixed(true)
        .autogrow(true)
        .vscroll(true)
        .build();
    assert_eq!((o.y, o.x, o.rows, o.cols), (2, 3, 4, 5));
    assert_eq!(o.flags, 0x38);
    assert_eq!(o.resizecb, Some(NcResizeCb(1)));
    let off = o.to_builder().fixed(false).vscroll(false).autogrow(false).build();
    assert_eq!(off.flags, 0);
    assert_eq!((off.y, off.x, off.rows, off.cols), (2, 3, 4, 5));
}

#[test]
fn builder_settings_clear_what_they_replace() {
    let b = NcPlaneOptionsBuilder::new().halign(NcAlign::Right).valign(NcAlign::Center);
    assert_eq!((b.y, b.x), (2, 3));
    assert_eq!(b.flags, 3);
    let plain = b.x(7);
    assert_eq!(plain.flags, NCPLANE_OPTION_VERALIGNED);
    assert_eq!(plain.y(1).flags, 0);
    let m = NcPlaneOptionsBuilder::default().marginalized(2, 4);
    assert_eq!((m.margin_b, m.margin_r, m.flags), (2, 4, 4));
    assert_eq!(m.rows(3).flags, 0);
    assert_eq!(m.cols(3).flags, 0);
}

#[test]
fn alignments_have_codes_and_offsets() {
    assert_eq!(i32::from(NcAlign::Unaligned), 0);
    assert_eq!(i32::from(NcAlign::Left), 1);
    assert_eq!(i32::from(NcAlign::Center), 2);
    assert_eq!(i32::from(NcAlign::Right), 3);
    assert_eq!(NcAlign::from_code(2), Some(NcAlign::Center));
    assert_eq!(NcAlign::from_code(4), None);
    assert_eq!(NcAlign::Unaligned.offset(10, 4), None);
    assert_eq!(NcAlign::Left.offset(10, 4), Some(0));
    assert_eq!(NcAlign::Center.offset(10, 4), Some(3));
    assert_eq!(NcAlign::Center.offset(10, 5), Some(2));
    assert_eq!(NcAlign::Right.offset(10, 4), Some(6));
    assert_eq!(NcAlign::Right.offset(4, 10), Some(-6));
    assert_eq!(NcAlign::Center.offset(4, 10), Some(-3));
}

#[test]
fn options_place_a_plane() {
    let o = NcPlaneOptions::new(-2, 5, 3, 4);
    assert_eq!(o.position_in((10, 10), (20, 20)), (8, 15));
    let a = NcPlaneOptions::builder().rows_cols(3, 4).halign(NcAlign::Right).valign(NcAlign::Center).build();
    assert_eq!(a.position_in((10, 10), (20, 20)), (18, 26));
    let far = NcPlaneOptions::new(i32::MAX, i32::MIN, 1, 1);
    assert_eq!(far.position_in((5, -5), (1, 1)), (i32::MAX, i32::MIN));
}

#[test]
fn errors_describe_themselves() {
    assert_eq!(NcError::AllocationError.describe(), "plane allocation failed");
    assert_eq!(NcError::InvalidOperation.describe(), "invalid operation");
    assert_eq!(NcError::CellEncodingError.describe(), "invalid grapheme cluster");
}
