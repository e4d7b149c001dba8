use bytes::Bytes;
use moq::coding::DecodeError;
use moq::media::{decode_frame, encoder_config, EncoderSearch, Frame, Placement, TrackConsumer, TrackProducer};
use moq::track::{Group, Track};

#[test]
fn first_group_is_played_at_once() {
    let mut reader = TrackConsumer::new();
    assert_eq!(reader.group(4), Placement::Current);
    assert_eq!(reader.current(), Some(4));
    assert_eq!(reader.pending_len(), 0);
}

#[test]
fn older_groups_are_skipped_newer_ones_wait_in_order() {
    let mut reader = TrackConsumer::new();
    reader.group(5);
    assert_eq!(reader.group(3), Placement::Skipped);
    assert_eq!(reader.group(9), Placement::Pending(0));
    assert_eq!(reader.group(7), Placement::Pending(0));
    assert_eq!(reader.group(8), Placement::Pending(1));
    assert_eq!(reader.group(10), Placement::Pending(3));
    assert_eq!(reader.pending_len(), 4);

    // Groups are played in order as each one ends.
    reader.group_ended();
    assert_eq!(reader.current(), Some(7));
    reader.group_ended();
    assert_eq!(reader.current(), Some(8));
}

#[test]
fn a_group_that_buffered_far_enough_is_jumped_to() {
    let mut reader = TrackConsumer::new();
    reader.group(1);
    reader.group(2);
    reader.group(3);
    reader.group(4);
    reader.buffered(1);
    assert_eq!(reader.current(), Some(3));
    assert_eq!(reader.pending_len(), 1);
    reader.group_ended();
    assert_eq!(reader.current(), Some(4));
    reader.group_ended();
    assert_eq!(reader.current(), None);
}

#[test]
fn cutoff_is_newest_timestamp_plus_latency() {
    let mut reader = TrackConsumer::new();
    assert_eq!(reader.cutoff(), 0);
    reader.set_latency(500_000);
    reader.group(0);
    reader.frame(1_000_000);
    assert_eq!(reader.cutoff(), 1_500_000);
    reader.frame(u64::MAX - 1);
    assert_eq!(reader.cutoff(), u64::MAX);
}

#[test]
fn keyframes_start_groups() {
    let mut writer = TrackProducer::new(Track::new("video").produce());
    let w = writer.write(Frame { timestamp: 0, keyframe: true, payload: vec![1, 2] });
    assert_eq!(w.group, Group { sequence: 0 });
    assert_eq!(w.finished, None);
    assert_eq!(w.bytes, vec![0x00, 1, 2]);

    let w = writer.write(Frame { timestamp: 33_000, keyframe: false, payload: vec![3] });
    assert_eq!(w.group, Group { sequence: 0 });
    assert_eq!(w.finished, None);
    assert_eq!(w.bytes, vec![0x80, 0x00, 0x80, 0xe8, 3]);

    let w = writer.write(Frame { timestamp: 66_000, keyframe: true, payload: vec![] });
    assert_eq!(w.group, Group { sequence: 1 });
    assert_eq!(w.finished, Some(Group { sequence: 0 }));
}

#[test]
fn a_first_frame_without_keyframe_still_opens_a_group() {
    let mut writer = TrackProducer::new(Track::new("audio").produce());
    let w = writer.write(Frame { timestamp: 63, keyframe: false, payload: vec![9] });
    assert_eq!(w.group, Group { sequence: 0 });
    assert_eq!(w.finished, None);
    assert_eq!(w.bytes, vec![63, 9]);
}

#[test]
fn written_frames_read_back() {
    let mut writer = TrackProducer::new(Track::new("video").produce());
    for (ts, payload) in [(0u64, vec![]), (63, vec![1]), (33_000, vec![2, 3]), ((1 << 62) - 1, vec![4; 10])] {
        let w = writer.write(Frame { timestamp: ts, keyframe: false, payload: payload.clone() });
        let (t, p) = decode_frame(Bytes::from(w.bytes)).unwrap();
        assert_eq!(t, ts);
        assert_eq!(p.as_ref(), payload.as_slice());
    }
}

#[test]
fn truncated_frames_are_short() {
    assert!(matches!(decode_frame(Bytes::new()), Err(DecodeError::Short)));
    assert!(matches!(decode_frame(Bytes::from(vec![0x80, 0x00])), Err(DecodeError::Short)));
}

#[test]
fn reading_is_done_only_at_the_end() {
    let mut reader = TrackConsumer::new();
    assert!(!reader.done(false));
    assert!(reader.done(true));
    reader.group(1);
    assert!(!reader.done(true));
    reader.group_ended();
    assert!(reader.done(true));
}

#[test]
fn encoder_search_tries_accelerated_codecs_first() {
    let mut search = EncoderSearch::new();
    assert_eq!(search.candidate(), Some((true, "av01.0.04M.08")));
    search.rejected();
    assert_eq!(search.candidate(), Some((true, "hev1.2.4.L120.B0")));
    for _ in 1..14 {
        search.rejected();
    }
    assert_eq!(search.candidate(), Some((false, "av01.0.04M.08")));
    for _ in 14..27 {
        search.rejected();
    }
    assert_eq!(search.candidate(), Some((false, "avc1.420034")));
    search.rejected();
    assert_eq!(search.candidate(), None);
}

#[test]
fn encoder_settings_of_each_candidate() {
    let c = encoder_config(1280, 720, true, "avc1.64001e");
    assert_eq!(c.codec, "avc1.64001e");
    assert_eq!((c.width, c.height), (1280, 720));
    assert_eq!(c.hardware_acceleration, Some(true));
    assert_eq!(c.bitrate, Some(2_000_000));
    assert_eq!(c.latency_optimized, Some(true));
    assert_eq!(c.max_gop_duration, Some(4_000_000));

    let mut search = EncoderSearch::new();
    for _ in 0..14 {
        search.rejected();
    }
    let c = search.config(640, 480).unwrap();
    assert_eq!(c.hardware_acceleration, Some(false));
    assert_eq!(c.codec, "av01.0.04M.08");
    assert_eq!((c.width, c.height), (640, 480));
}
