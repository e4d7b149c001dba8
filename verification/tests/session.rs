use moq::error::Error;
use moq::message::ControlType;
use moq::session::{accept_setup, accept_stream, run_control, Control};

#[test]
fn first_stream_must_be_the_session() {
    assert!(accept_stream(ControlType::Session).is_ok());
    assert!(matches!(accept_stream(ControlType::Announce), Err(Error::UnexpectedStream(ControlType::Announce))));
}

#[test]
fn version_negotiation() {
    assert_eq!(accept_setup(vec![1, 2, 3], 2).unwrap(), 2);
    match accept_setup(vec![1, 3], 2) {
        Err(Error::Version(client, server)) => {
            assert_eq!(client, vec![1, 3]);
            assert_eq!(server, vec![2]);
        }
        other => panic!("unexpected {other:?}"),
    }
    assert!(matches!(accept_setup(vec![], 7), Err(Error::Version(_, _))));
}

#[test]
fn control_streams() {
    assert_eq!(run_control(ControlType::Announce).unwrap(), Control::Announce);
    assert_eq!(run_control(ControlType::Subscribe).unwrap(), Control::Subscribe);
    assert!(matches!(run_control(ControlType::Session), Err(Error::UnexpectedStream(ControlType::Session))));
}
