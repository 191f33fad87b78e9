use ncpile::pile::NcPiles;
use ncpile::{NcAlign, NcError, NcPlaneOptions};

fn piles() -> NcPiles {
    NcPiles::new(24, 80).unwrap()
}

fn small() -> NcPlaneOptions {
    NcPlaneOptions::new(0, 0, 2, 2)
}

/// root a with children b, c; d bound to b; z-order top first: c, d, b, a
fn family() -> (NcPiles, usize, usize, usize, usize) {
    let mut nc = piles();
    let a = nc.create_root(&small()).unwrap();
    let b = nc.create_bound(a, &small()).unwrap();
    let d = nc.create_bound(b, &small()).unwrap();
    let c = nc.create_bound(a, &small()).unwrap();
    nc.move_top(c).unwrap();
    (nc, a, b, c, d)
}

#[test]
fn the_screen_has_a_size() {
    assert_eq!(piles().screen_size(), (24, 80));
    assert!(matches!(NcPiles::new(0, 80), Err(NcError::AllocationError)));
    assert!(matches!(NcPiles::new(24, 0), Err(NcError::AllocationError)));
    assert!(matches!(NcPiles::new(0x1_0000, 0x1_0000), Err(NcError::AllocationError)));
    assert!(NcPiles::new(0x1000, 0x1000).is_ok());
}

#[test]
fn a_new_root_is_root_top_and_bottom() {
    let mut nc = piles();
    let a = nc.create_root(&NcPlaneOptions::new(0, 0, 10, 20)).unwrap();
    assert!(nc.contains(a));
    assert!(nc.is_root(a));
    assert!(nc.bound_to(a, a));
    assert_eq!(nc.parent(a), Some(a));
    assert_eq!(nc.top(a), Some(a));
    assert_eq!(nc.bottom(a), Some(a));
    assert_eq!(nc.z_order(a), vec![a]);
    assert_eq!(nc.above(a), None);
    assert_eq!(nc.below(a), None);
    let b = nc.create_root(&small()).unwrap();
    assert_ne!(a, b);
    assert!(!nc.same_pile(a, b));
    assert_eq!(nc.z_order(a), vec![a]);
    assert_eq!(nc.z_order(b), vec![b]);
}

#[test]
fn creation_fails_on_bad_dimensions() {
    let mut nc = piles();
    assert_eq!(nc.create_root(&NcPlaneOptions::new(0, 0, 0, 20)), Err(NcError::AllocationError));
    assert_eq!(nc.create_root(&NcPlaneOptions::new(0, 0, 10, 0)), Err(NcError::AllocationError));
    assert_eq!(
        nc.create_root(&NcPlaneOptions::new(0, 0, 0x1001, 0x1000)),
        Err(NcError::AllocationError)
    );
    let a = nc.create_root(&small()).unwrap();
    assert_eq!(nc.create_bound(a, &NcPlaneOptions::new(0, 0, 0, 1)), Err(NcError::AllocationError));
    assert_eq!(nc.create_bound(a + 1, &small()), Err(NcError::InvalidOperation));
    assert_eq!(nc.z_order(a), vec![a]);
}

#[test]
fn a_bound_plane_goes_just_above_its_parent() {
    let (nc, a, b, c, d) = family();
    assert_eq!(nc.z_order(a), vec![c, d, b, a]);
    assert_eq!(nc.z_order(d), vec![c, d, b, a]);
    assert_eq!(nc.parent(b), Some(a));
    assert_eq!(nc.parent(c), Some(a));
    assert_eq!(nc.parent(d), Some(b));
    assert!(nc.bound_to(d, b));
    assert!(!nc.bound_to(d, a));
    assert!(!nc.is_root(b));
    assert_eq!(nc.top(b), Some(c));
    assert_eq!(nc.bottom(c), Some(a));
    assert_eq!(nc.above(b), Some(d));
    assert_eq!(nc.below(b), Some(a));
    assert_eq!(nc.above(c), None);
    assert_eq!(nc.below(a), None);
    assert!(nc.same_pile(a, d));
    assert!(nc.in_family(d, a));
    assert!(nc.in_family(d, b));
    assert!(nc.in_family(d, d));
    assert!(!nc.in_family(d, c));
    assert!(!nc.in_family(a, b));
}

#[test]
fn a_bound_plane_is_placed_relative_to_its_parent() {
    let mut nc = piles();
    let a = nc.create_root(&NcPlaneOptions::new(3, 4, 10, 20)).unwrap();
    assert_eq!(nc.plane(a).unwrap().abs_yx(), (3, 4));
    let b = nc.create_bound(a, &NcPlaneOptions::new(-1, 2, 2, 2)).unwrap();
    assert_eq!(nc.plane(b).unwrap().abs_yx(), (2, 6));
    let c = nc.create_bound(a, &NcPlaneOptions::new_aligned(1, NcAlign::Right, 2, 5)).unwrap();
    assert_eq!(nc.plane(c).unwrap().abs_yx(), (4, 19));
    let r = nc.create_root(&NcPlaneOptions::new_aligned(0, NcAlign::Center, 2, 10)).unwrap();
    assert_eq!(nc.plane(r).unwrap().abs_yx(), (0, 35));
}

#[test]
fn only_self_bound_planes_are_roots() {
    let (nc, a, b, c, d) = family();
    for p in [a, b, c, d] {
        let under_another = [a, b, c, d].iter().any(|&q| q != p && nc.in_family(p, q));
        assert_eq!(nc.bound_to(p, p), !under_another);
        assert_eq!(nc.is_root(p), nc.bound_to(p, p));
    }
}

#[test]
fn the_z_axis_is_a_strict_total_order() {
    let (nc, a, _, _, _) = family();
    let order = nc.z_order(a);
    for (i, &p) in order.iter().enumerate() {
        assert_eq!(nc.z_order(p), order);
        assert_eq!(order.iter().filter(|&&q| q == p).count(), 1);
        assert_eq!(nc.above(p), if i == 0 { None } else { Some(order[i - 1]) });
        assert_eq!(nc.below(p), order.get(i + 1).copied());
    }
    assert_eq!(nc.top(a), Some(order[0]));
    assert_eq!(nc.bottom(a), Some(order[3]));
    assert_ne!(nc.top(a), nc.bottom(a));
}

#[test]
fn destroying_a_root_promotes_its_child() {
    let mut nc = piles();
    let a = nc.create_root(&NcPlaneOptions::new(0, 0, 10, 20)).unwrap();
    let b = nc.create_bound(a, &NcPlaneOptions::new(1, 2, 10, 20)).unwrap();
    assert_eq!(nc.z_order(a), vec![b, a]);
    assert_eq!(nc.destroy(a), Ok(()));
    assert!(!nc.contains(a));
    assert!(nc.is_root(b));
    assert_eq!(nc.z_order(b), vec![b]);
    assert_eq!(nc.top(b), Some(b));
    assert_eq!(nc.bottom(b), Some(b));
    let plane = nc.plane(b).unwrap();
    assert_eq!((plane.rows(), plane.cols()), (10, 20));
    assert_eq!(plane.abs_yx(), (1, 2));
}

#[test]
fn destroying_a_root_makes_all_its_children_roots_in_order() {
    let (mut nc, a, b, c, d) = family();
    nc.destroy(a).unwrap();
    assert!(nc.is_root(b));
    assert!(nc.is_root(c));
    assert_eq!(nc.parent(d), Some(b));
    assert_eq!(nc.z_order(b), vec![c, d, b]);
    assert!(nc.same_pile(b, c));
}

#[test]
fn destroying_an_inner_plane_rebinds_its_children() {
    let (mut nc, a, b, c, d) = family();
    nc.destroy(b).unwrap();
    assert_eq!(nc.parent(d), Some(a));
    assert_eq!(nc.z_order(a), vec![c, d, a]);
    assert_eq!(nc.destroy(b), Err(NcError::InvalidOperation));
    assert_eq!(nc.z_order(a), vec![c, d, a]);
}

#[test]
fn destroying_the_last_plane_ends_the_pile() {
    let mut nc = piles();
    let a = nc.create_root(&small()).unwrap();
    nc.destroy(a).unwrap();
    assert!(!nc.contains(a));
    assert_eq!(nc.z_order(a), Vec::<usize>::new());
    assert_eq!(nc.top(a), None);
    assert_eq!(nc.parent(a), None);
    let b = nc.create_root(&small()).unwrap();
    assert_eq!(nc.z_order(b), vec![b]);
}

#[test]
fn reparent_moves_a_plane_alone() {
    let (mut nc, a, b, c, d) = family();
    let r = nc.create_root(&small()).unwrap();
    let s = nc.create_bound(r, &small()).unwrap();
    assert_eq!(nc.reparent(b, r), Ok(()));
    assert_eq!(nc.parent(b), Some(r));
    assert_eq!(nc.z_order(r), vec![s, b, r]);
    // the child of b is bound to b's former parent and has not moved
    assert_eq!(nc.parent(d), Some(a));
    assert_eq!(nc.z_order(a), vec![c, d, a]);
    assert!(nc.contains(d));
}

#[test]
fn reparent_within_a_pile_keeps_the_z_order() {
    let (mut nc, a, b, c, d) = family();
    nc.reparent(b, c).unwrap();
    assert_eq!(nc.parent(b), Some(c));
    assert_eq!(nc.parent(d), Some(a));
    assert_eq!(nc.z_order(a), vec![c, d, b, a]);
    // binding a plane to what was bound to it
    nc.reparent(a, d).unwrap();
    assert_eq!(nc.parent(a), Some(d));
    assert!(nc.is_root(d));
    assert!(nc.is_root(c));
    assert_eq!(nc.parent(b), Some(c));
    assert_eq!(nc.z_order(a), vec![c, d, b, a]);
}

#[test]
fn reparent_of_a_root_makes_its_children_roots() {
    let (mut nc, a, b, c, d) = family();
    let r = nc.create_root(&small()).unwrap();
    nc.reparent(a, r).unwrap();
    assert!(nc.is_root(b));
    assert!(nc.is_root(c));
    assert_eq!(nc.parent(d), Some(b));
    assert_eq!(nc.z_order(b), vec![c, d, b]);
    assert_eq!(nc.z_order(r), vec![a, r]);
    assert_eq!(nc.parent(a), Some(r));
}

#[test]
fn reparent_to_itself_makes_a_new_pile() {
    let (mut nc, a, b, c, d) = family();
    nc.reparent(b, b).unwrap();
    assert!(nc.is_root(b));
    assert_eq!(nc.z_order(b), vec![b]);
    assert_eq!(nc.top(b), Some(b));
    assert_eq!(nc.bottom(b), Some(b));
    assert_eq!(nc.parent(d), Some(a));
    assert_eq!(nc.z_order(a), vec![c, d, a]);
}

#[test]
fn reparent_of_a_root_to_itself_changes_nothing() {
    let (mut nc, a, b, c, d) = family();
    assert_eq!(nc.reparent(a, a), Ok(()));
    assert_eq!(nc.z_order(a), vec![c, d, b, a]);
    assert_eq!(nc.parent(b), Some(a));
    assert_eq!(nc.parent(c), Some(a));
    assert_eq!(nc.parent(d), Some(b));
    assert_eq!(nc.reparent_family(a, a), Ok(()));
    assert_eq!(nc.z_order(a), vec![c, d, b, a]);
    assert_eq!(nc.parent(b), Some(a));
}

#[test]
fn reparent_fails_on_planes_that_do_not_exist() {
    let (mut nc, a, b, c, d) = family();
    assert_eq!(nc.reparent(b, 99), Err(NcError::InvalidOperation));
    assert_eq!(nc.reparent(99, b), Err(NcError::InvalidOperation));
    assert_eq!(nc.reparent_family(b, 99), Err(NcError::InvalidOperation));
    assert_eq!(nc.reparent_family(99, 99), Err(NcError::InvalidOperation));
    assert_eq!(nc.z_order(a), vec![c, d, b, a]);
}

#[test]
fn reparent_family_moves_the_family_as_a_block() {
    let (mut nc, a, b, c, d) = family();
    let e = nc.create_bound(d, &small()).unwrap();
    nc.move_top(d).unwrap();
    assert_eq!(nc.z_order(a), vec![d, c, e, b, a]);
    let r = nc.create_root(&small()).unwrap();
    let s = nc.create_bound(r, &small()).unwrap();
    assert_eq!(nc.reparent_family(b, r), Ok(()));
    assert_eq!(nc.z_order(r), vec![s, d, e, b, r]);
    assert_eq!(nc.z_order(a), vec![c, a]);
    assert_eq!(nc.parent(b), Some(r));
    assert_eq!(nc.parent(d), Some(b));
    assert_eq!(nc.parent(e), Some(d));
    assert_eq!(nc.below(b), Some(r));
}

#[test]
fn reparent_family_within_a_pile_puts_the_block_above_the_parent() {
    let (mut nc, a, b, c, d) = family();
    nc.reparent_family(b, c).unwrap();
    assert_eq!(nc.z_order(a), vec![d, b, c, a]);
    assert_eq!(nc.parent(b), Some(c));
    assert_eq!(nc.parent(d), Some(b));
}

#[test]
fn reparent_family_to_itself_takes_the_family_along() {
    let (mut nc, a, b, c, d) = family();
    nc.reparent_family(b, b).unwrap();
    assert!(nc.is_root(b));
    assert_eq!(nc.z_order(b), vec![d, b]);
    assert_eq!(nc.parent(d), Some(b));
    assert_eq!(nc.z_order(a), vec![c, a]);
}

#[test]
fn reparent_family_refuses_a_cycle() {
    let (mut nc, a, b, c, d) = family();
    assert_eq!(nc.reparent_family(b, d), Err(NcError::InvalidOperation));
    assert_eq!(nc.reparent_family(a, b), Err(NcError::InvalidOperation));
    assert_eq!(nc.z_order(a), vec![c, d, b, a]);
    assert_eq!(nc.parent(b), Some(a));
    assert_eq!(nc.parent(d), Some(b));
}

#[test]
fn single_planes_move_along_the_z_axis() {
    let (mut nc, a, b, c, d) = family();
    nc.move_top(a).unwrap();
    assert_eq!(nc.z_order(a), vec![a, c, d, b]);
    nc.move_bottom(c).unwrap();
    assert_eq!(nc.z_order(a), vec![a, d, b, c]);
    nc.move_above(c, d).unwrap();
    assert_eq!(nc.z_order(a), vec![a, c, d, b]);
    nc.move_below(a, d).unwrap();
    assert_eq!(nc.z_order(a), vec![c, d, a, b]);
    nc.move_below(c, b).unwrap();
    assert_eq!(nc.z_order(a), vec![d, a, b, c]);
    nc.move_top(d).unwrap();
    assert_eq!(nc.z_order(a), vec![d, a, b, c]);
    // bindings are untouched
    assert_eq!(nc.parent(b), Some(a));
    assert_eq!(nc.parent(d), Some(b));
    assert!(nc.is_root(a));
}

#[test]
fn moving_across_piles_is_refused() {
    let (mut nc, a, b, c, d) = family();
    let r = nc.create_root(&small()).unwrap();
    let s = nc.create_bound(r, &small()).unwrap();
    assert_eq!(nc.move_above(b, r), Err(NcError::InvalidOperation));
    assert_eq!(nc.move_below(b, s), Err(NcError::InvalidOperation));
    assert_eq!(nc.move_family_above(b, r), Err(NcError::InvalidOperation));
    assert_eq!(nc.move_family_below(b, r), Err(NcError::InvalidOperation));
    assert_eq!(nc.z_order(a), vec![c, d, b, a]);
    assert_eq!(nc.z_order(r), vec![s, r]);
    assert_eq!(nc.parent(b), Some(a));
    assert_eq!(nc.parent(s), Some(r));
}

#[test]
fn moves_fail_on_planes_that_do_not_exist_or_on_themselves() {
    let (mut nc, a, b, c, d) = family();
    assert_eq!(nc.move_top(99), Err(NcError::InvalidOperation));
    assert_eq!(nc.move_bottom(99), Err(NcError::InvalidOperation));
    assert_eq!(nc.move_family_top(99), Err(NcError::InvalidOperation));
    assert_eq!(nc.move_family_bottom(99), Err(NcError::InvalidOperation));
    assert_eq!(nc.move_above(b, 99), Err(NcError::InvalidOperation));
    assert_eq!(nc.move_above(99, b), Err(NcError::InvalidOperation));
    assert_eq!(nc.move_above(b, b), Err(NcError::InvalidOperation));
    assert_eq!(nc.move_below(b, b), Err(NcError::InvalidOperation));
    assert_eq!(nc.move_family_above(b, d), Err(NcError::InvalidOperation));
    assert_eq!(nc.move_family_below(b, b), Err(NcError::InvalidOperation));
    assert_eq!(nc.z_order(a), vec![c, d, b, a]);
}

#[test]
fn families_move_as_blocks() {
    let (mut nc, a, b, c, d) = family();
    nc.move_bottom(d).unwrap();
    assert_eq!(nc.z_order(a), vec![c, b, a, d]);
    nc.move_family_top(b).unwrap();
    assert_eq!(nc.z_order(a), vec![b, d, c, a]);
    nc.move_family_bottom(b).unwrap();
    assert_eq!(nc.z_order(a), vec![c, a, b, d]);
    nc.move_family_above(b, a).unwrap();
    assert_eq!(nc.z_order(a), vec![c, b, d, a]);
    nc.move_family_below(b, a).unwrap();
    assert_eq!(nc.z_order(a), vec![c, a, b, d]);
    nc.move_family_above(b, c).unwrap();
    assert_eq!(nc.z_order(a), vec![b, d, c, a]);
    nc.move_family_top(a).unwrap();
    assert_eq!(nc.z_order(a), vec![b, d, c, a]);
    assert_eq!(nc.parent(d), Some(b));
}

#[test]
fn plane_numbers_are_used_again() {
    let mut nc = piles();
    let a = nc.create_root(&small()).unwrap();
    let b = nc.create_root(&small()).unwrap();
    nc.destroy(a).unwrap();
    let c = nc.create_bound(b, &small()).unwrap();
    assert_eq!(c, a);
    assert_eq!(nc.z_order(b), vec![c, b]);
    assert_eq!(nc.parent(c), Some(b));
}
