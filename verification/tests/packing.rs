use maxrects::{FailedPacking, InvalidRegion, RectPacker, Rectangle, bssf};

fn valid_pack(rectangles: &Vec<((u32, u32), (u32, u32))>) -> bool {
    let as_rectangles = || {
        rectangles
            .iter()
            .map(|&((x, y), (width, height))| Rectangle::new((x, y), (x + width, y + height)))
    };

    for (i, a) in as_rectangles().enumerate() {
        for (j, b) in as_rectangles().enumerate() {
            if i != j && a.intersects(&b) {
                return false;
            }
        }
    }

    true
}

#[test]
fn global_pack() {
    let mut packer = RectPacker::new();
    packer.add_free((0, 0), (100, 100)).unwrap();
    let a = vec![(1, 10), (9, 9), (9, 1)];
    assert!(valid_pack(&packer.pack_global(a, |x| x.clone()).unwrap()));
}

#[test]
fn normal_pack() {
    let mut packer = RectPacker::new();
    packer.add_free((0, 0), (100, 100)).unwrap();

    println!("{:?}", packer.pack(1, 10).unwrap());
    println!("{:?}", packer.pack(9, 9).unwrap());
    println!("{:?}", packer.pack(9, 1).unwrap());
}

#[test]
fn three_packs_do_not_overlap() {
    let mut packer = RectPacker::new();
    packer.add_free((0, 0), (100, 100)).unwrap();
    let sizes = [(1, 10), (9, 9), (9, 1)];
    let mut placed: Vec<((u32, u32), (u32, u32))> = Vec::new();
    for &(w, h) in sizes.iter() {
        let pos = packer.pack(w, h).expect("each of the three must fit");
        placed.push((pos, (w, h)));
    }
    assert!(valid_pack(&placed));
}

#[test]
fn exact_fit_then_exhausted() {
    let mut packer = RectPacker::new();
    packer.add_free((0, 0), (10, 10)).unwrap();
    assert_eq!(packer.pack(10, 10), Some((0, 0)));
    assert_eq!(packer.pack(1, 1), None);
}

#[test]
fn global_pack_exhaustion_restores_input() {
    let mut packer = RectPacker::new();
    packer.add_free((0, 0), (5, 5)).unwrap();
    let items = vec![(6u32, 6u32)];
    let failed: FailedPacking<(u32, u32)> = packer
        .pack_global(items, |x| x.clone())
        .expect_err("a 6 by 6 item cannot fit a 5 by 5 canvas");
    assert_eq!(failed.restore(), vec![(6, 6)]);
}

#[test]
fn inverted_bounds_are_rejected() {
    let mut packer = RectPacker::new();
    assert_eq!(packer.add_free((5, 5), (2, 2)), Err(InvalidRegion));
    assert!(packer.free_rects().is_empty());
    assert_eq!(packer.pack(1, 1), None);
}

#[test]
fn inverted_bounds_leave_free_set_unchanged() {
    let mut packer = RectPacker::new();
    packer.add_free((0, 0), (10, 10)).unwrap();
    assert_eq!(packer.add_free((5, 5), (2, 2)), Err(InvalidRegion));
    assert_eq!(packer.free_rects().len(), 1);
    assert_eq!(packer.pack(10, 10), Some((0, 0)));
}

#[test]
fn bssf_scores() {
    assert_eq!(bssf(&(10, 8), &(3, 2)), Some(6));
    assert_eq!(bssf(&(10, 8), &(10, 8)), Some(0));
    assert_eq!(bssf(&(2, 5), &(3, 1)), None);
    assert_eq!(bssf(&(5, 2), &(1, 3)), None);
}

#[test]
fn tighter_free_rectangle_wins() {
    let mut packer = RectPacker::new();
    packer.add_free((0, 0), (100, 100)).unwrap();
    packer.add_free((200, 0), (205, 5)).unwrap();
    assert_eq!(packer.pack(5, 5), Some((200, 0)));
}

#[test]
fn ties_go_to_first_registered() {
    let mut packer = RectPacker::new();
    packer.add_free((50, 50), (60, 60)).unwrap();
    packer.add_free((0, 0), (10, 10)).unwrap();
    assert_eq!(packer.pack(10, 10), Some((50, 50)));
}

#[test]
fn free_set_stays_non_redundant() {
    let mut packer = RectPacker::new();
    packer.add_free((0, 0), (10, 10)).unwrap();
    packer.add_free((0, 0), (5, 5)).unwrap();
    packer.add_free((2, 2), (4, 4)).unwrap();
    packer.pack(2, 2).unwrap();
    let frees = packer.free_rects();
    for (i, a) in frees.iter().enumerate() {
        for (j, b) in frees.iter().enumerate() {
            if i != j {
                assert!(
                    !(a.supersets(b) && a != b),
                    "a retained free rectangle is a proper subset of another"
                );
            }
        }
    }
}

#[test]
fn identical_histories_pack_identically() {
    let mut first = RectPacker::new();
    let mut second = RectPacker::new();
    for packer in [&mut first, &mut second] {
        packer.add_free((0, 0), (30, 30)).unwrap();
        packer.add_free((40, 0), (50, 20)).unwrap();
    }
    for &(w, h) in [(7, 3), (10, 20), (4, 4), (30, 30), (2, 2)].iter() {
        assert_eq!(first.pack(w, h), second.pack(w, h));
    }
    let items = vec![(5u32, 5u32), (9u32, 2u32), (100u32, 100u32)];
    let a = first.pack_global(items.clone(), |x| x.clone());
    let b = second.pack_global(items, |x| x.clone());
    match (a, b) {
        (Ok(x), Ok(y)) => assert_eq!(x, y),
        (Err(x), Err(y)) => assert_eq!(x.restore(), y.restore()),
        _ => panic!("one run succeeded and the other failed"),
    }
}

#[test]
fn global_pack_positions_are_pinned() {
    let mut packer = RectPacker::new();
    packer.add_free((0, 0), (10, 10)).unwrap();
    let result = packer
        .pack_global(vec![(9u32, 9u32), (1u32, 10u32)], |x| x.clone())
        .unwrap();
    assert_eq!(result, vec![((1, 10), (0, 0)), ((9, 9), (1, 0))]);
}

#[test]
fn global_pack_partial_failure_keeps_both_parts() {
    let mut packer = RectPacker::new();
    packer.add_free((0, 0), (10, 10)).unwrap();
    let failed = packer
        .pack_global(vec![(10u32, 10u32), (2u32, 2u32)], |x| x.clone())
        .expect_err("the second item has no room once the first fills the canvas");
    assert_eq!(failed.restore(), vec![(2, 2), (10, 10)]);
}

#[test]
fn partial_failure_exposes_both_parts() {
    let mut packer = RectPacker::new();
    packer.add_free((0, 0), (10, 10)).unwrap();
    let failed = packer
        .pack_global(vec![(10u32, 10u32), (2u32, 2u32)], |x| x.clone())
        .expect_err("the second item has no room once the first fills the canvas");
    let (placed, unplaced) = failed.into_parts();
    assert_eq!(placed, vec![((10, 10), (0, 0))]);
    assert_eq!(unplaced, vec![(2, 2)]);
}

#[test]
fn global_pack_of_nothing_succeeds() {
    let mut packer = RectPacker::new();
    let placed: Vec<((u32, u32), (u32, u32))> =
        packer.pack_global(Vec::new(), |x: &(u32, u32)| x.clone()).unwrap();
    assert!(placed.is_empty());
}

#[test]
fn empty_packer_packs_nothing() {
    let mut packer = RectPacker::new();
    assert_eq!(packer.pack(0, 0), None);
    assert_eq!(packer.pack(1, 1), None);
}

#[test]
fn zero_sized_item_claims_no_area() {
    let mut packer = RectPacker::new();
    packer.add_free((0, 0), (10, 10)).unwrap();
    assert_eq!(packer.pack(0, 0), Some((0, 0)));
    assert_eq!(packer.pack(10, 10), Some((0, 0)));
}

#[test]
fn whole_coordinate_range_fits() {
    let mut packer = RectPacker::new();
    packer.add_free((0, 0), (u32::MAX, u32::MAX)).unwrap();
    assert_eq!(packer.pack(u32::MAX, u32::MAX), Some((0, 0)));
    assert_eq!(packer.pack(1, 1), None);
}

#[test]
fn packed_items_stay_inside_registered_area() {
    let mut packer = RectPacker::new();
    packer.add_free((10, 10), (40, 30)).unwrap();
    let sizes = [(5, 5), (30, 20), (12, 1)];
    for &(w, h) in sizes.iter() {
        if let Some((x, y)) = packer.pack(w, h) {
            assert!(x >= 10 && y >= 10 && x + w <= 40 && y + h <= 30);
        }
    }
}
