use moq::announce::{Announce, AnnounceConsumer, AnnounceProducer};

fn assert_active(consumer: &AnnounceConsumer, producer: &mut AnnounceProducer, suffix: &str) {
    match consumer.next(producer) {
        Some(Some(Announce::Active { suffix: got })) => assert_eq!(got, suffix),
        other => panic!("expected active {suffix}, got {other:?}"),
    }
}

fn assert_ended(consumer: &AnnounceConsumer, producer: &mut AnnounceProducer, suffix: &str) {
    match consumer.next(producer) {
        Some(Some(Announce::Ended { suffix: got })) => assert_eq!(got, suffix),
        other => panic!("expected ended {suffix}, got {other:?}"),
    }
}

fn assert_wait(consumer: &AnnounceConsumer, producer: &mut AnnounceProducer) {
    assert_eq!(consumer.next(producer), None);
}

fn assert_done(consumer: &AnnounceConsumer, producer: &mut AnnounceProducer) {
    assert_eq!(consumer.next(producer), Some(None));
}

#[test]
fn announce_simple() {
    let mut producer = AnnounceProducer::new();
    let consumer = producer.consume("");
    let ab = "a/b";

    assert!(!producer.contains(ab));
    assert!(producer.insert(ab));
    assert!(producer.contains(ab));

    assert_active(&consumer, &mut producer, ab);

    assert!(producer.remove(ab));
    assert!(!producer.contains(ab));

    assert_ended(&consumer, &mut producer, ab);
    assert_wait(&consumer, &mut producer);
}

#[test]
fn duplicate() {
    let mut producer = AnnounceProducer::new();
    let consumer = producer.consume("");

    let ab = "a/b";
    let ab2 = "a/b";

    assert!(producer.insert(ab));
    assert!(producer.contains(ab));

    // Doesn't matter which one is used; they have the same path.
    assert!(producer.contains(ab2));
    assert_active(&consumer, &mut producer, ab2);

    // Duplicate announcement.
    assert!(!producer.insert(ab2));

    // Automatically insert an end/start pair.
    assert_ended(&consumer, &mut producer, ab);
    assert_active(&consumer, &mut producer, ab2);

    producer.close();

    assert_ended(&consumer, &mut producer, ab2);
    assert_done(&consumer, &mut producer);
}

#[test]
fn multi() {
    let mut producer = AnnounceProducer::new();
    let consumer = producer.consume("");

    let ab = "a/b";
    let ac = "a/c";
    let de = "d/e";

    assert!(producer.insert(ab));
    assert!(producer.insert(ac));
    assert!(producer.insert(de));

    assert_active(&consumer, &mut producer, ab);
    assert_active(&consumer, &mut producer, ac);
    assert_active(&consumer, &mut producer, de);
    assert_wait(&consumer, &mut producer);
}

#[test]
fn late() {
    let mut producer = AnnounceProducer::new();
    let ab = "a/b";
    let ac = "a/c";
    let de = "d/e";
    let dd = "d/d";

    assert!(producer.insert(ab));
    assert!(producer.insert(ac));

    // Subscribe after announcing.
    let consumer = producer.consume("");

    assert!(producer.insert(de));
    assert!(producer.insert(dd));

    assert_active(&consumer, &mut producer, ab);
    assert_active(&consumer, &mut producer, ac);
    assert_active(&consumer, &mut producer, de);
    assert_active(&consumer, &mut producer, dd);
    assert_wait(&consumer, &mut producer);
}

#[test]
fn prefix() {
    let mut producer = AnnounceProducer::new();
    let consumer = producer.consume("a/");

    let ab = "a/b";
    let ac = "a/c";
    let de = "d/e";

    assert!(producer.insert(ab));
    assert!(producer.insert(ac));
    assert!(producer.insert(de));

    assert_active(&consumer, &mut producer, "b");
    assert_active(&consumer, &mut producer, "c");
    assert_wait(&consumer, &mut producer);
}

#[test]
fn prefix_unannounce() {
    let mut producer = AnnounceProducer::new();
    let consumer = producer.consume("a/");

    let ab = "a/b";
    let ac = "a/c";
    let de = "d/e";

    assert!(producer.insert(ab));
    assert!(producer.insert(ac));
    assert!(producer.insert(de));

    assert_active(&consumer, &mut producer, "b");
    assert_active(&consumer, &mut producer, "c");
    assert_wait(&consumer, &mut producer);

    assert!(producer.remove(de));
    assert!(producer.remove(ac));
    assert!(producer.remove(ab));

    assert_ended(&consumer, &mut producer, "c");
    assert_ended(&consumer, &mut producer, "b");
    assert_wait(&consumer, &mut producer);
}

#[test]
fn flicker() {
    let mut producer = AnnounceProducer::new();
    let consumer = producer.consume("");
    let ab = "a/b";

    assert!(!producer.contains(ab));
    assert!(producer.insert(ab));
    assert!(producer.contains(ab));
    assert!(producer.remove(ab));
    assert!(!producer.contains(ab));

    // We missed it, but we still get a start/stop pair.
    assert_active(&consumer, &mut producer, ab);
    assert_ended(&consumer, &mut producer, ab);
    assert_wait(&consumer, &mut producer);
}

#[test]
fn dropped() {
    let mut producer = AnnounceProducer::new();
    let consumer = producer.consume("");

    let ab = "a/b";
    let ac = "a/c";
    let de = "d/e";

    assert!(producer.insert(ab));
    assert!(producer.insert(ac));

    assert_active(&consumer, &mut producer, ab);
    assert_active(&consumer, &mut producer, ac);

    // Don't consume "d/e" before closing.
    producer.insert(de);
    producer.close();

    assert_active(&consumer, &mut producer, de);
    assert_ended(&consumer, &mut producer, ab);
    assert_ended(&consumer, &mut producer, ac);
    assert_ended(&consumer, &mut producer, de);
    assert_done(&consumer, &mut producer);
}
