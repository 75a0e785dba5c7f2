use ferride::animation::Animation;

#[test]
fn looping_animation_moves_through_its_frames() {
    let mut a = Animation::new(vec![(10u64, 'a'), (10, 'b'), (10, 'c')], false);
    assert_eq!(*a.keyframe(), 'a');
    assert!(!a.update(5));
    assert_eq!(a.current_keyframe(), 0);
    assert!(!a.update(5));
    assert_eq!(*a.keyframe(), 'b');
    // 25 more: into frame c with 15, which is past its 10 again, wrapping to a with 5.
    assert!(!a.update(25));
    assert_eq!(*a.keyframe(), 'a');
    assert!(a.is_running_now());
}

#[test]
fn one_shot_animation_stops_in_its_last_frame() {
    let mut a = Animation::new(vec![(10u64, 1u8), (10, 2), (10, 3)], true);
    assert!(!a.update(10));
    assert!(!a.update(10));
    assert_eq!(*a.keyframe(), 3);
    assert!(a.update(10));
    assert_eq!(*a.keyframe(), 3);
    assert!(!a.is_running_now());
    // A stopped animation stays where it is.
    assert!(!a.update(100));
    assert_eq!(a.current_keyframe(), 2);
}

#[test]
fn empty_one_shot_animation_ends_at_once() {
    let mut a: Animation<u8> = Animation::new(vec![], true);
    assert!(a.update(1));
    assert!(!a.is_running_now());
    assert!(!a.update(1));
}

#[test]
fn looping_animation_never_ends() {
    let mut a = Animation::new(vec![(3u64, 'x'), (3, 'y')], false);
    for _ in 0..50 {
        assert!(!a.update(2));
        assert!(a.is_running_now());
    }
}

#[test]
fn interpolated_frames_share_the_animation_time() {
    // 100 ns over 3 steps: each frame lasts 33 ns.
    let mut a = Animation::lerp(vec![0u8, 5, 10], 3, 100, true);
    assert_eq!(*a.keyframe(), 0);
    assert!(!a.update(32));
    assert_eq!(a.current_keyframe(), 0);
    assert!(!a.update(1));
    assert_eq!(*a.keyframe(), 5);
    assert!(!a.update(33));
    assert_eq!(*a.keyframe(), 10);
    assert!(a.update(33));
    assert!(!a.is_running_now());
}

#[test]
fn updates_that_would_not_finish_are_refused() {
    // A looping animation whose frames all last zero would skip frames forever.
    let a = Animation::new(vec![(0u64, 'a'), (0, 'b')], false);
    assert!(!a.can_update_check(1));
    // The next frame lasting longer than the time left cannot be subtracted.
    let b = Animation::new(vec![(1u64, 'a'), (10, 'b')], false);
    assert!(!b.can_update_check(1));
    assert!(b.can_update_check(0));
    // The clock must not overflow.
    let mut c = Animation::new(vec![(10u64, 'a')], false);
    assert!(c.can_update_check(5));
    assert!(!c.update(5));
    assert!(!c.can_update_check(u64::MAX));
    // A looping animation with one frame that lasts runs on.
    let mut d = Animation::new(vec![(0u64, 'a'), (4, 'b')], false);
    assert!(d.can_update_check(9));
    assert!(!d.update(9));
    assert_eq!(d.frame_count(), 2);
    // A looping animation without frames cannot advance; a one-shot one just ends.
    let e: Animation<u8> = Animation::new(vec![], false);
    assert!(!e.can_update_check(1));
    let f: Animation<u8> = Animation::new(vec![], true);
    assert!(f.can_update_check(1));
}

#[test]
fn a_one_shot_animation_ends_on_its_last_frame() {
    let mut a = Animation::new(vec![(10u64, 1u8), (10, 2)], true);
    assert!(a.update(25));
    assert_eq!(*a.keyframe(), 2);
    assert!(!a.update(5));
    assert_eq!(*a.keyframe(), 2);
    let mut b = Animation::new(vec![(5u64, 'x'), (5, 'y')], false);
    assert!(!b.update(4));
    assert_eq!(*b.keyframe(), 'x');
}
