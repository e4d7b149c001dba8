use moq::error::Error;
use moq::frame::{Frame, FrameRead};
use moq::track::{Group, NextGroup, Track};

#[test]
fn track_new_has_default_priority() {
    let t = Track::new("video");
    assert_eq!(t.name, "video");
    assert_eq!(t.priority, 0);
}

#[test]
fn append_group_counts_up() {
    let mut producer = Track::new("t").produce();
    assert_eq!(producer.append_group(), Group { sequence: 0 });
    assert_eq!(producer.append_group(), Group { sequence: 1 });
    assert_eq!(producer.create_group(Group { sequence: 10 }), Some(Group { sequence: 10 }));
    assert_eq!(producer.append_group(), Group { sequence: 11 });
}

#[test]
fn old_groups_are_refused() {
    let mut producer = Track::new("t").produce();
    assert!(producer.insert_group(Group { sequence: 5 }));
    assert!(!producer.insert_group(Group { sequence: 5 }));
    assert!(!producer.insert_group(Group { sequence: 4 }));
    assert_eq!(producer.create_group(Group { sequence: 3 }), None);
    assert!(producer.insert_group(Group { sequence: 6 }));
}

#[test]
fn consumer_skips_but_never_goes_back() {
    let mut producer = Track::new("t").produce();
    let mut consumer = producer.consume();
    assert!(matches!(consumer.next_group(&producer), NextGroup::Pending));

    producer.append_group();
    producer.append_group();
    producer.append_group();
    match consumer.next_group(&producer) {
        NextGroup::Group(g) => assert_eq!(g.sequence, 2),
        other => panic!("unexpected {other:?}"),
    }
    assert!(matches!(consumer.next_group(&producer), NextGroup::Pending));

    producer.append_group();
    match consumer.next_group(&producer) {
        NextGroup::Group(g) => assert_eq!(g.sequence, 3),
        other => panic!("unexpected {other:?}"),
    }
}

#[test]
fn consumer_sees_the_end() {
    let mut producer = Track::new("t").produce();
    let mut consumer = producer.consume();
    producer.finish();
    assert!(matches!(consumer.next_group(&producer), NextGroup::Finished));

    let mut producer = Track::new("t").produce();
    let mut consumer = producer.consume();
    producer.abort(Error::Cancel);
    assert!(matches!(consumer.next_group(&producer), NextGroup::Aborted(Error::Cancel)));
}

#[test]
fn frame_chunks_and_read_all() {
    let mut producer = Frame { size: 5 }.produce();
    let mut consumer = producer.consume();
    assert!(matches!(consumer.read(&producer), FrameRead::Pending));
    producer.write(vec![1, 2]);
    match consumer.read(&producer) {
        FrameRead::Data(c) => assert_eq!(c.as_ref(), &[1, 2]),
        other => panic!("unexpected {other:?}"),
    }
    producer.write(vec![3]);
    producer.write(vec![4, 5]);
    assert!(matches!(consumer.read_all(&producer), FrameRead::Pending));
    producer.finish();
    match consumer.read_all(&producer) {
        FrameRead::Data(all) => assert_eq!(all.as_ref(), &[3, 4, 5]),
        other => panic!("unexpected {other:?}"),
    }
    assert!(matches!(consumer.read(&producer), FrameRead::Finished));
}

#[test]
fn frame_aborted() {
    let mut producer = Frame { size: 3 }.produce();
    let mut consumer = producer.consume();
    producer.write(vec![1]);
    producer.abort(Error::Timeout);
    assert!(matches!(consumer.read(&producer), FrameRead::Data(_)));
    assert!(matches!(consumer.read(&producer), FrameRead::Aborted(Error::Timeout)));
}

#[test]
fn frame_from_sizes() {
    assert_eq!(Frame::from(7usize).size, 7);
    assert_eq!(Frame::from(8u32).size, 8);
    assert_eq!(Frame::from(9u16).size, 9);
    assert_eq!(Frame::from(10u64).size, 10);
}

#[test]
fn error_codes() {
    assert_eq!(Error::Cancel.to_code(), 0);
    assert_eq!(Error::Old.to_code(), 2);
    assert_eq!(Error::Timeout.to_code(), 3);
    assert_eq!(Error::NotFound.to_code(), 13);
    assert_eq!(Error::ProtocolViolation.to_code(), 15);
    assert_eq!(Error::App(1).to_code(), 65);
}

#[test]
fn dropped_producers_cancel() {
    let mut producer = Track::new("t").produce();
    let mut consumer = producer.consume();
    producer.dropped();
    assert!(matches!(consumer.next_group(&producer), NextGroup::Aborted(Error::Cancel)));

    let mut producer = Track::new("t").produce();
    let mut consumer = producer.consume();
    producer.finish();
    producer.dropped();
    assert!(matches!(consumer.next_group(&producer), NextGroup::Finished));

    let mut frame = Frame { size: 2 }.produce();
    let mut reader = frame.consume();
    frame.write(vec![1]);
    frame.dropped();
    assert!(matches!(reader.read_all(&frame), FrameRead::Aborted(Error::Cancel)));
}
