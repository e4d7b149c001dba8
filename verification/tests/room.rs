use moq::native::choose_certificate;
use moq::room::Room;

#[test]
fn room_paths_and_own_broadcasts() {
    let mut room = Room::new("rooms/demo/".to_string());
    assert_eq!(room.path(), "rooms/demo/");
    assert_eq!(room.publish("alice"), "rooms/demo/alice");
    assert!(room.is_publishing("alice"));
    assert!(!room.is_publishing("bob"));
    assert_eq!(room.publish("alice"), "rooms/demo/alice");
    room.closed("alice");
    assert!(!room.is_publishing("alice"));
}

#[test]
fn certificate_choice() {
    assert_eq!(choose_certificate(&vec![]), None);
    assert_eq!(choose_certificate(&vec![false, true, true]), Some(1));
    assert_eq!(choose_certificate(&vec![false, false]), Some(0));
    assert_eq!(choose_certificate(&vec![true]), Some(0));
}
