use tunnelclient::child::{Backoff, BACKOFF_CAP, INITIAL_BACKOFF, STABILITY_THRESHOLD};

const S: u64 = 1_000_000_000;

#[test]
fn quick_failures_double_the_wait_up_to_the_cap() {
    let mut b = Backoff::new();
    let waits: Vec<u64> = (0..7).map(|_| b.on_exit(Some(2 * S))).collect();
    assert_eq!(waits, vec![S, 2 * S, 4 * S, 8 * S, 16 * S, 30 * S, 30 * S]);
    assert_eq!(b.current, BACKOFF_CAP);
}

#[test]
fn a_binary_that_stayed_up_starts_over() {
    let mut b = Backoff::new();
    b.on_exit(None);
    b.on_exit(None);
    assert_eq!(b.current, 4 * S);
    assert_eq!(b.on_exit(Some(STABILITY_THRESHOLD)), INITIAL_BACKOFF);
    assert_eq!(b.current, 2 * S);
    assert_eq!(b.on_exit(Some(STABILITY_THRESHOLD - 1)), 2 * S);
}
