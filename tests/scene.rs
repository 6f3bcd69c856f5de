use raytracer::scene::closest_hit;

// Members stand at a distance along the ray; a member is hit when its
// distance is positive and below the bound.
fn nearest(members: &Vec<i64>) -> Option<i64> {
    closest_hit(
        members,
        i64::MAX,
        |m: &i64, bound: i64| if *m > 0 && *m < bound { Some(*m) } else { None },
        |h: &i64| *h,
    )
}

#[test]
fn no_members_no_hit() {
    assert_eq!(nearest(&Vec::new()), None);
}

#[test]
fn all_miss() {
    assert_eq!(nearest(&vec![-4, -1, 0]), None);
}

#[test]
fn nearest_wins_in_any_order() {
    assert_eq!(nearest(&vec![7, 3, 5]), Some(3));
    assert_eq!(nearest(&vec![3, 7, 5]), Some(3));
    assert_eq!(nearest(&vec![5, 7, 3]), Some(3));
    assert_eq!(nearest(&vec![-2, 9, 0, 4]), Some(4));
}

#[test]
fn bound_limits_hits() {
    let members = vec![7, 3, 5];
    let r = closest_hit(
        &members,
        3,
        |m: &i64, bound: i64| if *m < bound { Some(*m) } else { None },
        |h: &i64| *h,
    );
    assert_eq!(r, None);
}

#[test]
fn record_of_the_nearest_member() {
    let members = vec![(10i64, 'a'), (2, 'b'), (6, 'c')];
    let r = closest_hit(
        &members,
        100,
        |m: &(i64, char), bound: i64| if m.0 < bound { Some(*m) } else { None },
        |h: &(i64, char)| h.0,
    );
    assert_eq!(r, Some((2, 'b')));
}

#[test]
fn each_member_asked_once_with_tightening_bound() {
    let calls = std::cell::RefCell::new(Vec::new());
    let members = vec![5i64, 8, 3, 7];
    let r = closest_hit(
        &members,
        10,
        |m: &i64, bound: i64| {
            calls.borrow_mut().push((*m, bound));
            if *m < bound { Some(*m) } else { None }
        },
        |h: &i64| *h,
    );
    assert_eq!(r, Some(3));
    assert_eq!(calls.into_inner(), vec![(5, 10), (8, 5), (3, 5), (7, 3)]);
}
