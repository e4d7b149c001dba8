use moq::broadcast::{BroadcastProducer, Subscription};
use moq::origin::OriginProducer;
use moq::relay::{Cluster, ClusterConfig};
use moq::table::Table;
use moq::track::{NextGroup, Track, TrackProducer};

#[test]
fn table_set_get_remove() {
    let mut t = Table::new();
    assert!(t.insert("a", 1));
    assert!(t.insert("b", 2));
    assert!(!t.insert("a", 3));
    assert_eq!(t.get("a"), Some(3));
    assert_eq!(t.get("b"), Some(2));
    assert_eq!(t.len(), 2);
    t.remove("a");
    assert_eq!(t.get("a"), None);
    assert_eq!(t.len(), 1);
    assert_eq!(t.entry(0), ("b", 2));
}

#[test]
fn published_tracks_are_found() {
    let mut producer = BroadcastProducer::new();
    let consumer = producer.consume();
    let t1 = producer.create(&Track::new("track1"));
    assert_eq!(consumer.subscribe(&mut producer, &Track::new("track1")), Subscription::Track(t1));
    assert!(producer.insert("track2", 77));
    assert_eq!(consumer.subscribe(&mut producer, &Track::new("track2")), Subscription::Track(77));
}

#[test]
fn unknown_tracks_become_shared_requests_taken_in_name_order() {
    let mut producer = BroadcastProducer::new();
    let consumer = producer.consume();
    let b = consumer.subscribe(&mut producer, &Track::new("b"));
    let a = consumer.subscribe(&mut producer, &Track::new("a"));
    assert_ne!(a, b);
    // A second subscriber to the same name shares the request.
    let other = producer.consume();
    assert_eq!(other.subscribe(&mut producer, &Track::new("b")), b);

    let (name, t) = producer.requested().unwrap();
    assert_eq!(name, "a");
    assert_eq!(Subscription::Track(t), a);
    let (name, t) = producer.requested().unwrap();
    assert_eq!(name, "b");
    assert_eq!(Subscription::Track(t), b);
    assert_eq!(producer.requested(), None);

    // Once taken up, the request is a published track.
    assert_eq!(consumer.subscribe(&mut producer, &Track::new("a")), a);
}

#[test]
fn a_finished_broadcast_gives_no_track() {
    let mut producer = BroadcastProducer::new();
    let consumer = producer.consume();
    consumer.subscribe(&mut producer, &Track::new("x"));
    producer.finish();
    assert!(consumer.is_closed(&producer));
    assert_eq!(consumer.subscribe(&mut producer, &Track::new("x")), Subscription::Closed);
    assert_eq!(producer.requested(), None);
}

#[test]
fn closed_tracks_leave_the_broadcast() {
    let mut producer = BroadcastProducer::new();
    let consumer = producer.consume();
    let t = producer.create(&Track::new("t"));
    producer.track_closed("t", t);
    let again = consumer.subscribe(&mut producer, &Track::new("t"));
    assert_ne!(again, Subscription::Track(t));
}

#[test]
fn a_replaced_track_closing_leaves_its_replacement() {
    let mut producer = BroadcastProducer::new();
    let consumer = producer.consume();
    producer.insert("t", 5);
    producer.insert("t", 7);
    producer.track_closed("t", 5);
    assert_eq!(consumer.subscribe(&mut producer, &Track::new("t")), Subscription::Track(7));
    producer.track_closed("t", 7);
    assert_ne!(consumer.subscribe(&mut producer, &Track::new("t")), Subscription::Track(7));
}

#[test]
fn origin_consumers_see_existing_then_new_broadcasts() {
    let mut origin = OriginProducer::new();
    assert!(origin.publish("room/alice", 1));
    assert!(origin.publish("other/x", 2));
    let watcher = origin.consume_prefix("room/");
    let all = origin.consume_all();
    assert_eq!(watcher.next(&mut origin), Some(("alice".to_string(), 1)));
    assert_eq!(watcher.next(&mut origin), None);

    assert!(origin.publish("room/bob", 3));
    assert!(!origin.publish("room/alice", 4));
    assert_eq!(watcher.next(&mut origin), Some(("bob".to_string(), 3)));
    assert_eq!(watcher.next(&mut origin), Some(("alice".to_string(), 4)));
    assert_eq!(watcher.next(&mut origin), None);

    assert_eq!(all.next(&mut origin), Some(("room/alice".to_string(), 1)));
    assert_eq!(all.next(&mut origin), Some(("other/x".to_string(), 2)));
    assert_eq!(origin.consume("room/alice"), Some(4));
    assert_eq!(origin.consume("room/carol"), None);
}

#[test]
fn cluster_prefers_local_broadcasts() {
    let mut cluster = Cluster::new(ClusterConfig::default());
    cluster.remotes.publish("demo", 1);
    assert_eq!(cluster.get("demo"), Some(1));
    cluster.locals.publish("demo", 2);
    assert_eq!(cluster.get("demo"), Some(2));
    assert_eq!(cluster.get("nothing"), None);
}

fn handle_of(s: Subscription) -> u64 {
    match s {
        Subscription::Track(h) => h,
        Subscription::Closed => panic!("broadcast closed"),
    }
}

fn track_for<'a>(tracks: &'a [(u64, TrackProducer)], h: u64) -> &'a TrackProducer {
    &tracks.iter().find(|(id, _)| *id == h).expect("unknown track").1
}

#[test]
fn insert() {
    let mut producer = BroadcastProducer::new();
    let mut tracks: Vec<(u64, TrackProducer)> = vec![(1, Track::new("track1").produce())];

    // Make sure we can insert before a consumer is created.
    producer.insert("track1", 1);
    tracks[0].1.append_group();

    let consumer = producer.consume();

    let h1 = handle_of(consumer.subscribe(&mut producer, &Track::new("track1")));
    let mut track1 = track_for(&tracks, h1).consume();
    assert!(matches!(track1.next_group(track_for(&tracks, h1)), NextGroup::Group(_)));

    tracks.push((2, Track::new("track2").produce()));
    producer.insert("track2", 2);

    let consumer2 = producer.consume();
    let h2 = handle_of(consumer2.subscribe(&mut producer, &Track::new("track2")));
    let mut track2consumer = track_for(&tracks, h2).consume();
    assert!(matches!(track2consumer.next_group(track_for(&tracks, h2)), NextGroup::Pending));

    tracks[1].1.append_group();
    assert!(matches!(track2consumer.next_group(track_for(&tracks, h2)), NextGroup::Group(_)));
}
