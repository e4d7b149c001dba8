use moq::error::Error;
use moq::message::Subscribe;
use moq::publisher::{Action, Publisher};
use moq::track::Track;

#[test]
fn stream_priority() {
    let assert = |track_priority: i8, group_sequence: u64, expected: i32| {
        assert_eq!(Publisher::stream_priority(track_priority, group_sequence), expected);
    };

    const U24: i32 = (1 << 24) - 1;

    // NOTE: The lower the value, the higher the priority.
    assert(-1, 50, -51);
    assert(-1, 0, -1);
    assert(0, 50, U24 - 50);
    assert(0, 0, U24);
    assert(1, 50, 2 * U24 - 49);
    assert(1, 0, 2 * U24 + 1);
}

#[test]
fn stream_priority_wraps_every_2_pow_24_groups() {
    assert_eq!(Publisher::stream_priority(0, 1 << 24), Publisher::stream_priority(0, 0));
    assert_eq!(Publisher::stream_priority(3, (1 << 24) + 7), Publisher::stream_priority(3, 7));
}

#[test]
fn stream_priority_orders_tracks_then_groups() {
    assert!(Publisher::stream_priority(-2, 0) < Publisher::stream_priority(-1, 1000));
    assert!(Publisher::stream_priority(5, 11) < Publisher::stream_priority(5, 10));
    assert_eq!(Publisher::stream_priority(i8::MIN, 0), (i8::MIN as i32) << 24 | 0xFF_FFFF);
}

fn sub(id: u64, priority: i8) -> Subscribe {
    Subscribe { id, broadcast: "b".to_string(), track: "t".to_string(), priority }
}

#[test]
fn serves_at_most_two_groups() {
    let s = sub(4, -1);
    let mut publisher = Publisher::new();
    assert!(publisher.is_idle());
    let g = publisher.serve(&s, 1);
    assert_eq!(g.cancelled, None);
    assert_eq!(g.priority, Publisher::stream_priority(-1, 1));
    assert_eq!((g.header.subscribe, g.header.sequence), (4, 1));
    assert_eq!(publisher.serve(&s, 2).cancelled, None);
    // The third group displaces the oldest one.
    assert_eq!(publisher.serve(&s, 3).cancelled, Some(1));
    assert_eq!(publisher.serve(&s, 4).cancelled, Some(2));
    assert!(!publisher.is_idle());
}

#[test]
fn finishing_the_newest_group_cancels_the_older() {
    let s = sub(0, 0);
    let mut publisher = Publisher::new();
    publisher.serve(&s, 7);
    publisher.serve(&s, 8);
    assert_eq!(publisher.new_done(), Some(7));
    assert!(publisher.is_idle());

    publisher.serve(&s, 9);
    publisher.serve(&s, 10);
    publisher.old_done();
    assert_eq!(publisher.new_done(), None);
    assert!(publisher.is_idle());
}

#[test]
fn a_run_serves_each_group_then_ends() {
    let s = sub(2, 3);
    let mut track = Track::new("t").produce();
    let mut consumer = track.consume();
    let mut publisher = Publisher::new();

    assert!(matches!(publisher.on_next_group(&s, consumer.next_group(&track)), Action::Wait));
    track.append_group();
    match publisher.on_next_group(&s, consumer.next_group(&track)) {
        Action::Serve(g) => {
            assert_eq!((g.header.subscribe, g.header.sequence), (2, 0));
            assert_eq!(g.priority, Publisher::stream_priority(3, 0));
        }
        other => panic!("unexpected {other:?}"),
    }
    track.finish();
    // The group is still being served, so the run waits for it.
    assert!(matches!(publisher.on_next_group(&s, consumer.next_group(&track)), Action::Wait));
    assert!(!publisher.is_done());
    publisher.new_done();
    assert!(publisher.is_done());
    assert!(matches!(publisher.on_next_group(&s, consumer.next_group(&track)), Action::Done));
}

#[test]
fn a_failed_track_fails_the_run() {
    let s = sub(1, 0);
    let mut track = Track::new("t").produce();
    let mut consumer = track.consume();
    let mut publisher = Publisher::new();
    track.abort(Error::Timeout);
    assert!(matches!(publisher.on_next_group(&s, consumer.next_group(&track)), Action::Fail(Error::Timeout)));
}
