use moq::catalog::{Capabilities, ConnectionStatus, Dimensions, Event};

#[test]
fn status_becomes_an_event() {
    assert_eq!(Event::from(ConnectionStatus::Live), Event::Connection(ConnectionStatus::Live));
    let e: Event = ConnectionStatus::Error("boom".to_string()).into();
    assert_eq!(e, Event::Connection(ConnectionStatus::Error("boom".to_string())));
}

#[test]
fn defaults() {
    assert_eq!(Dimensions::default(), Dimensions { width: 0, height: 0 });
    let c = Capabilities::default();
    assert!(c.video.hardware.is_empty() && c.audio.software.is_empty());
}
