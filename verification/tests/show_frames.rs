use tunnelclient::show_frames::{
    current_frame, ErrorReport, ErrorThrottle, ReceivedFrame, ERROR_REPORT_PERIOD, MAX_FRAME_AGE,
};

const MS: u64 = 1_000_000;

#[test]
fn a_frame_outlives_its_stream_by_a_bounded_time() {
    let arrival = 5_000 * MS;
    let mailbox = Some(ReceivedFrame { frame: 17u32, received_at: arrival });
    assert_eq!(current_frame(&mailbox, arrival), Some(17));
    assert_eq!(current_frame(&mailbox, arrival + MAX_FRAME_AGE - MS), Some(17));
    assert_eq!(current_frame(&mailbox, arrival + MAX_FRAME_AGE), None);
    assert_eq!(current_frame::<u32>(&None, arrival), None);
}

/// The interval show frames arrive at, in nanoseconds.
const FRAME_INTERVAL: u64 = 4_167_000;

#[test]
fn a_repeating_failure_is_counted_rather_than_reported() {
    let mut throttle = ErrorThrottle::new();
    let start = 10_000 * MS;
    assert_eq!(throttle.record(start), Some(ErrorReport::First));

    let mut elapsed = FRAME_INTERVAL;
    let mut counted = 0;
    while elapsed < ERROR_REPORT_PERIOD {
        assert_eq!(throttle.record(start + elapsed), None);
        counted += 1;
        elapsed += FRAME_INTERVAL;
    }

    match throttle.record(start + elapsed) {
        Some(ErrorReport::Repeated(count)) => assert_eq!(count, counted + 1),
        other => panic!("a period of failures reported {other:?}"),
    }

    assert_eq!(
        throttle.record(start + elapsed + 3 * ERROR_REPORT_PERIOD),
        Some(ErrorReport::First),
        "a failure after a quiet stretch opens a fresh run"
    );
}
