use tunnelclient::run_flag::RunFlag;

#[test]
fn stopping_any_clone_stops_every_holder() {
    let mut a = RunFlag::new();
    let b = a.clone();
    assert!(a.should_run());
    assert!(b.should_run());
    a.stop();
    assert!(!a.should_run());
    assert!(!b.should_run());
}
