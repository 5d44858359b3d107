use tunnelclient::compare::Diff;

#[test]
fn frames_are_compared_pixel_by_pixel() {
    let a = [10u8, 20, 30, 255, 0, 0, 0, 255, 100, 100, 100, 100];
    let b = [12u8, 20, 30, 255, 0, 9, 0, 250, 100, 100, 100, 100];
    let d = Diff::of(&a, &b, 3);
    assert_eq!(d.worst, 9);
    assert_eq!(d.over, 1, "only the second pixel differs by more than three");
    assert_eq!(d.total, 3);
    let same = Diff::of(&a, &a, 0);
    assert_eq!((same.worst, same.over, same.total), (0, 0, 3));
}

#[test]
fn only_the_pixels_both_frames_hold_are_compared() {
    let a = [0u8; 12];
    let b = [200u8; 4];
    let d = Diff::of(&a, &b, 0);
    assert_eq!((d.worst, d.over, d.total), (200, 1, 3));
}
